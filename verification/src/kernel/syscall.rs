//! The system calls that a process makes into the kernel, on its descriptors,
//! pipes, working folder and state.
use crate::kernel::emulator::cpu::{reg, reg_write, Riscv64Cpu};
use crate::kernel::process::{
    close, close_effect, descriptors_valid, drop_trailing_none, lemma_drop_trailing_none, nodes_after_close, fds_after_close, mapping_of, nodes_after_fd_close, pipes_after_fd_close,
    same_process, FdMapping, ProcessData, ProcessNode, ProcessPipe, ProcessState,
};
use crate::bytes::{le_bytes_u32, le_bytes_u64, put_u32_le, put_u64_le};
use crate::kernel::emulator::{bytes_at, EmulatorMemory};
use crate::kernel::vfs::{IFile, Node};
use crate::kernel::virtmem::{regions_wf, store_bytes, LittleEndianVirtualMemory, UserPointer, VirtualMemory};
use vstd::string::*;
use crate::rlibc::sys::{syscall_of, SyscallNumber, O_APPEND, O_RDONLY, O_WRONLY, SEEK_CUR, SEEK_END, SEEK_SET};
use crate::text::{lemma_utf8_len, string_from_utf8, utf8_decode};
use vstd::prelude::*;

verus! {

/// The state a process ends in when it exits: it waits for its parent to
/// learn it, or, without a parent, to be deallocated.
pub open spec fn exit_state(parent_pid: Option<usize>, exit_code: usize) -> ProcessState {
    if parent_pid is None {
        ProcessState::TERMINATED_NORMALLY_WAITING_TO_BE_DEALLOCATED { exit_code }
    } else {
        ProcessState::TERMINATED_NORMALLY_CHILD_WAITING_FOR_PARENT_ACKNOWLEDGEMENT { exit_code }
    }
}

/// What a call of [`exit`] does: the result and the state after it.
pub open spec fn exit_effect<F, D>(old_p: ProcessData<F, D>, new_p: ProcessData<F, D>, exit_code: usize) -> bool {
    &&& new_p == (ProcessData {
                state: exit_state(old_p.parent_pid, exit_code),
                ..old_p
            })
}

/// Ends the process with `exit_code`.
pub fn exit<F, D>(proc_data: &mut ProcessData<F, D>, exit_code: usize)
    ensures
        exit_effect(*old(proc_data), *final(proc_data), exit_code),
{
    if proc_data.parent_pid.is_none() {
        proc_data.state = ProcessState::TERMINATED_NORMALLY_WAITING_TO_BE_DEALLOCATED { exit_code };
    } else {
        proc_data.state = ProcessState::TERMINATED_NORMALLY_CHILD_WAITING_FOR_PARENT_ACKNOWLEDGEMENT {
            exit_code,
        };
    }
}

/// Every descriptor of `p` that refers to a node refers to one that is open.
pub open spec fn nodes_valid<F, D>(p: ProcessData<F, D>) -> bool {
    forall|fd: int|
        0 <= fd < p.fd_mappings@.len() ==> (#[trigger] p.fd_mappings@[fd] matches Some(
            FdMapping::Regular(k),
        ) ==> k < p.open_nodes@.len() && p.open_nodes@[k as int] is Some)
}

/// `base + offset` as the machine adds them: in 64-bit two's complement,
/// taken back as an unsigned cursor.
pub open spec fn cursor_plus(base: u64, offset: i64) -> u64 {
    vstd::wrapping::i64_specs::wrapping_add(base as i64, offset) as u64
}

/// Where `lseek` puts a cursor at `cursor` in a file of `size` bytes (`None`
/// for a folder); `None` where `whence` is none of the three or asks for the
/// end of a folder.
pub open spec fn seek_target(cursor: u64, size: Option<u64>, offset: i64, whence: usize) -> Option<u64> {
    if whence == SEEK_SET {
        Some(offset as u64)
    } else if whence == SEEK_CUR {
        Some(cursor_plus(cursor, offset))
    } else if whence == SEEK_END {
        match size {
            Some(s) => Some(cursor_plus(s, offset)),
            None => None,
        }
    } else {
        None
    }
}

/// The size of the node's file, `None` for a folder.
pub open spec fn node_size<F: IFile, D>(n: ProcessNode<F, D>) -> Option<u64> {
    match n.vfs_node {
        Node::File(f) => Some(f.data().len() as u64),
        Node::Folder(_) => None,
    }
}

/// What a call of [`lseek`] does: the result and the state after it.
pub open spec fn lseek_effect<F: IFile, D>(old_p: ProcessData<F, D>, new_p: ProcessData<F, D>, fd: usize, offset: i64, whence: usize, r: i64) -> bool {
    &&& match mapping_of(old_p, fd) {
                Some(FdMapping::Regular(k)) => {
                    let n = old_p.open_nodes@[k as int]->0;
                    match seek_target(n.cursor, node_size(n), offset, whence) {
                        Some(c) => r == c as i64 && new_p == (ProcessData {
                            open_nodes: new_p.open_nodes,
                            ..old_p
                        }) && new_p.open_nodes@ == old_p.open_nodes@.update(
                            k as int,
                            Some(ProcessNode { cursor: c, ..n }),
                        ),
                        None => r == -1 && new_p == old_p,
                    }
                },
                _ => r == -1 && new_p == old_p,
            }
}

/// Moves the cursor of the file that `fd` refers to: to `offset`
/// (`SEEK_SET`), by `offset` (`SEEK_CUR`), or to `offset` from the end of the
/// file (`SEEK_END`). Gives the new cursor, or -1 where `fd` is no open file
/// or folder, `whence` is none of these, or the end of a folder is asked for.
pub fn lseek<F: IFile, D>(proc_data: &mut ProcessData<F, D>, fd: usize, offset: i64, whence: usize) -> (r: i64)
    requires
        nodes_valid(*old(proc_data)),
    ensures
        lseek_effect(*old(proc_data), *final(proc_data), fd, offset, whence, r),
{
    if fd >= proc_data.fd_mappings.len() {
        return -1;
    }
    let node_index = match proc_data.fd_mappings[fd] {
        Some(FdMapping::Regular(k)) => k,
        _ => {
            return -1;
        },
    };
    assert(proc_data.fd_mappings@[fd as int] matches Some(FdMapping::Regular(k)) ==> k < proc_data.open_nodes@.len() && proc_data.open_nodes@[k as int] is Some);
    let target: Option<u64> = match &proc_data.open_nodes[node_index] {
        Some(node) => {
            if whence == SEEK_SET {
                Some(offset as u64)
            } else if whence == SEEK_CUR {
                Some((node.cursor as i64).wrapping_add(offset) as u64)
            } else if whence == SEEK_END {
                match &node.vfs_node {
                    Node::File(f) => {
                        let size = f.get_size();
                        Some((size as i64).wrapping_add(offset) as u64)
                    },
                    Node::Folder(_) => None,
                }
            } else {
                None
            }
        },
        None => None,
    };
    let c = match target {
        Some(c) => c,
        None => {
            return -1;
        },
    };
    let mut slot: Option<ProcessNode<F, D>> = None;
    std::mem::swap(&mut slot, &mut proc_data.open_nodes[node_index]);
    assert(slot == old(proc_data).open_nodes@[node_index as int]);
    if let Some(mut node) = slot {
        node.cursor = c;
        proc_data.open_nodes.set(node_index, Some(node));
    }
    assert(proc_data.open_nodes@ =~= old(proc_data).open_nodes@.update(
        node_index as int,
        Some(ProcessNode { cursor: c, ..old(proc_data).open_nodes@[node_index as int]->0 }),
    ));
    c as i64
}

/// What a call of [`fchdir`] does: the result and the state after it.
pub open spec fn fchdir_effect<F, D>(old_p: ProcessData<F, D>, new_p: ProcessData<F, D>, fd: usize, r: isize) -> bool {
    &&& match mapping_of(old_p, fd) {
                Some(FdMapping::Regular(k)) => r == 0 && new_p.cwd.view()
                    == old_p.open_nodes@[k as int]->0.path.view() && new_p == (ProcessData {
                    cwd: new_p.cwd,
                    ..old_p
                }),
                _ => r == -1 && new_p == old_p,
            }
}

/// Makes the working folder of the process that of the node `fd` refers
/// to: 0, or -1 where `fd` is not open or refers to no node.
pub fn fchdir<F, D>(proc_data: &mut ProcessData<F, D>, fd: usize) -> (r: isize)
    requires
        nodes_valid(*old(proc_data)),
    ensures
        fchdir_effect(*old(proc_data), *final(proc_data), fd, r),
{
    if fd >= proc_data.fd_mappings.len() {
        return -1;
    }
    let node_index = match proc_data.fd_mappings[fd] {
        Some(FdMapping::Regular(k)) => k,
        _ => {
            return -1;
        },
    };
    assert(proc_data.fd_mappings@[fd as int] matches Some(FdMapping::Regular(k)) ==> k < proc_data.open_nodes@.len() && proc_data.open_nodes@[k as int] is Some);
    let path = match &proc_data.open_nodes[node_index] {
        Some(node) => node.path.clone(),
        None => {
            return -1;
        },
    };
    proc_data.cwd = path;
    0
}

/// The open nodes after one more descriptor refers to `m`.
pub open spec fn nodes_after_dup<F, D>(nodes: Seq<Option<ProcessNode<F, D>>>, m: FdMapping) -> Seq<Option<ProcessNode<F, D>>> {
    match m {
        FdMapping::Regular(k) => {
            let n = nodes[k as int]->0;
            nodes.update(k as int, Some(ProcessNode { reference_count: (n.reference_count + 1) as usize, ..n }))
        },
        _ => nodes,
    }
}

/// The pipes after one more descriptor refers to `m`.
pub open spec fn pipes_after_dup(pipes: Seq<Option<ProcessPipe>>, m: FdMapping) -> Seq<Option<ProcessPipe>> {
    match m {
        FdMapping::PipeReadEnd(k) => {
            let p = pipes[k as int]->0;
            pipes.update(k as int, Some(ProcessPipe { readers_count: (p.readers_count + 1) as usize, ..p }))
        },
        FdMapping::PipeWriteEnd(k) => {
            let p = pipes[k as int]->0;
            pipes.update(k as int, Some(ProcessPipe { writers_count: (p.writers_count + 1) as usize, ..p }))
        },
        _ => pipes,
    }
}

/// What `m` refers to exists, and its count of references can grow by one.
pub open spec fn reference_room<F, D>(nodes: Seq<Option<ProcessNode<F, D>>>, pipes: Seq<Option<ProcessPipe>>, m: FdMapping) -> bool {
    match m {
        FdMapping::Regular(k) => k < nodes.len() && nodes[k as int] is Some && nodes[k as int]->0.reference_count
            < usize::MAX,
        FdMapping::PipeReadEnd(k) => k < pipes.len() && pipes[k as int] is Some && pipes[k as int]->0.readers_count
            < usize::MAX,
        FdMapping::PipeWriteEnd(k) => k < pipes.len() && pipes[k as int] is Some && pipes[k as int]->0.writers_count
            < usize::MAX,
        _ => true,
    }
}

/// Counts one more reference to what `m` refers to.
fn add_reference<F, D>(nodes: &mut Vec<Option<ProcessNode<F, D>>>, pipes: &mut Vec<Option<ProcessPipe>>, m: FdMapping)
    requires
        reference_room(old(nodes)@, old(pipes)@, m),
    ensures
        final(nodes)@ == nodes_after_dup(old(nodes)@, m),
        final(pipes)@ == pipes_after_dup(old(pipes)@, m),
{
    match m {
        FdMapping::Regular(k) => {
            let mut slot: Option<ProcessNode<F, D>> = None;
            std::mem::swap(&mut slot, &mut nodes[k]);
            assert(slot == old(nodes)@[k as int]);
            if let Some(n) = slot {
                let rc = n.reference_count + 1;
                nodes.set(k, Some(ProcessNode { reference_count: rc, ..n }));
            }
            assert(nodes@ =~= nodes_after_dup(old(nodes)@, m));
        },
        FdMapping::PipeReadEnd(k) => {
            let mut slot: Option<ProcessPipe> = None;
            std::mem::swap(&mut slot, &mut pipes[k]);
            assert(slot == old(pipes)@[k as int]);
            if let Some(p) = slot {
                let c = p.readers_count + 1;
                pipes.set(k, Some(ProcessPipe { readers_count: c, ..p }));
            }
            assert(pipes@ =~= pipes_after_dup(old(pipes)@, m));
        },
        FdMapping::PipeWriteEnd(k) => {
            let mut slot: Option<ProcessPipe> = None;
            std::mem::swap(&mut slot, &mut pipes[k]);
            assert(slot == old(pipes)@[k as int]);
            if let Some(p) = slot {
                let c = p.writers_count + 1;
                pipes.set(k, Some(ProcessPipe { writers_count: c, ..p }));
            }
            assert(pipes@ =~= pipes_after_dup(old(pipes)@, m));
        },
        _ => {},
    }
}

/// What a call of [`dup`] does: the result and the state after it.
pub open spec fn dup_effect<F, D>(old_p: ProcessData<F, D>, new_p: ProcessData<F, D>, old_pipes: Seq<Option<ProcessPipe>>, new_pipes: Seq<Option<ProcessPipe>>, oldfd: usize, r: isize) -> bool {
    &&& match mapping_of(old_p, oldfd) {
                None => r == -1 && new_p == old_p && new_pipes == old_pipes,
                Some(m) => {
                    &&& r == old_p.fd_mappings@.len()
                    &&& new_p.fd_mappings@ == old_p.fd_mappings@.push(Some(m))
                    &&& new_p.open_nodes@ == nodes_after_dup(old_p.open_nodes@, m)
                    &&& new_pipes == pipes_after_dup(old_pipes, m)
                    &&& same_process(new_p, old_p)
                },
            }
}

/// A new descriptor, after all others, for what `oldfd` refers to: the new
/// descriptor, or -1 where `oldfd` is not open.
pub fn dup<F, D>(proc_data: &mut ProcessData<F, D>, pipes: &mut Vec<Option<ProcessPipe>>, oldfd: usize) -> (r: isize)
    requires
        mapping_of(*old(proc_data), oldfd) matches Some(m) ==> reference_room(
            old(proc_data).open_nodes@,
            old(pipes)@,
            m,
        ) && old(proc_data).fd_mappings@.len() < isize::MAX,
    ensures
        dup_effect(*old(proc_data), *final(proc_data), old(pipes)@, final(pipes)@, oldfd, r),
{
    if oldfd >= proc_data.fd_mappings.len() {
        return -1;
    }
    let m = match proc_data.fd_mappings[oldfd] {
        Some(m) => m,
        None => {
            return -1;
        },
    };
    add_reference(&mut proc_data.open_nodes, pipes, m);
    let fd = proc_data.fd_mappings.len();
    proc_data.fd_mappings.push(Some(m));
    fd as isize
}

/// The descriptors `fds` with `newfd` referring to `m`, after as many free
/// descriptors as it takes to reach it.
pub open spec fn fds_with(fds: Seq<Option<FdMapping>>, newfd: usize, m: FdMapping) -> Seq<Option<FdMapping>> {
    if newfd > fds.len() {
        (fds + Seq::new((newfd + 1 - fds.len()) as nat, |_i: int| None::<FdMapping>)).update(newfd as int, Some(m))
    } else {
        fds.update(newfd as int, Some(m))
    }
}

/// `dup2` of `oldfd`, which refers to `m`, onto `newfd` can be done: once
/// `newfd` is closed, what `m` refers to is still there and can take one
/// more reference, and `newfd` is not the number just after the last
/// descriptor left.
pub open spec fn dup2_possible<F, D>(p: ProcessData<F, D>, pipes: Seq<Option<ProcessPipe>>, m: FdMapping, newfd: usize) -> bool {
    &&& reference_room(nodes_after_fd_close(p, newfd), pipes_after_fd_close(p, pipes, newfd), m)
    &&& newfd != fds_after_close(p, newfd).len()
    &&& newfd < usize::MAX
}

/// Appends free descriptors to `fds` up to the length `len`.
fn extend_with_none(fds: &mut Vec<Option<FdMapping>>, len: usize)
    requires
        old(fds)@.len() <= len,
    ensures
        final(fds)@ == old(fds)@ + Seq::new((len - old(fds)@.len()) as nat, |_i: int| None::<FdMapping>),
{
    while fds.len() < len
        invariant
            old(fds)@.len() <= fds@.len() <= len,
            fds@ == old(fds)@ + Seq::new((fds@.len() - old(fds)@.len()) as nat, |_i: int| None::<FdMapping>),
        decreases len - fds@.len(),
    {
        fds.push(None);
        assert(fds@ =~= old(fds)@ + Seq::new((fds@.len() - old(fds)@.len()) as nat, |_i: int| None::<FdMapping>));
    }
}

/// The number of descriptors left once `fd`, which is open, is closed.
fn len_after_close(fds: &Vec<Option<FdMapping>>, fd: usize) -> (r: usize)
    requires
        fd < fds@.len(),
    ensures
        r == drop_trailing_none(fds@.update(fd as int, None)).len(),
{
    let ghost s = fds@.update(fd as int, None);
    let mut n = fds.len();
    while n > 0 && (n - 1 == fd || fds[n - 1].is_none())
        invariant
            n <= fds@.len(),
            fd < fds@.len(),
            s == fds@.update(fd as int, None),
            forall|i: int| n <= i < s.len() ==> s[i] is None,
        decreases n,
    {
        n = n - 1;
    }
    proof {
        lemma_drop_trailing_none(s);
        let d = drop_trailing_none(s);
        if d.len() < n {
            assert(s[n - 1] is Some);
        }
        if n < d.len() {
            assert(s[d.len() - 1] is Some);
        }
    }
    n
}

/// Whether `dup2` of `oldfd`, which is open, onto `newfd` can be done (see
/// [`dup2_possible`]).
pub fn dup2_allowed<F, D>(p: &ProcessData<F, D>, pipes: &Vec<Option<ProcessPipe>>, oldfd: usize, newfd: usize) -> (r: bool)
    requires
        descriptors_valid(*p, pipes@),
        mapping_of(*p, oldfd) is Some,
    ensures
        r == dup2_possible(*p, pipes@, mapping_of(*p, oldfd)->0, newfd),
{
    if newfd == usize::MAX {
        return false;
    }
    let m = match p.fd_mappings[oldfd] {
        Some(m) => m,
        None => {
            return false;
        },
    };
    assert(match p.fd_mappings@[oldfd as int] {
        Some(FdMapping::Regular(k)) => k < p.open_nodes@.len() && p.open_nodes@[k as int] is Some,
        Some(FdMapping::PipeReadEnd(k)) => k < pipes@.len() && pipes@[k as int] is Some,
        Some(FdMapping::PipeWriteEnd(k)) => k < pipes@.len() && pipes@[k as int] is Some,
        _ => true,
    });
    let closing: Option<FdMapping> = if newfd < p.fd_mappings.len() {
        p.fd_mappings[newfd]
    } else {
        None
    };
    assert(closing == mapping_of(*p, newfd));
    let len_after = match closing {
        Some(_) => len_after_close(&p.fd_mappings, newfd),
        None => p.fd_mappings.len(),
    };
    if newfd == len_after {
        return false;
    }
    proof {
        lemma_drop_trailing_none(p.open_nodes@);
        match closing {
            Some(FdMapping::Regular(k2)) => {
                if k2 < p.open_nodes@.len() {
                    lemma_drop_trailing_none(nodes_after_close(p.open_nodes@, k2 as int));
                }
            },
            Some(FdMapping::PipeReadEnd(k2)) => {
                lemma_drop_trailing_none(pipes@.update(k2 as int, None));
            },
            Some(FdMapping::PipeWriteEnd(k2)) => {
                lemma_drop_trailing_none(pipes@.update(k2 as int, None));
            },
            _ => {},
        }
    }
    match m {
        FdMapping::Regular(k) => {
            let rc = match &p.open_nodes[k] {
                Some(n) => n.reference_count,
                None => 0,
            };
            proof {
                let pre = match closing {
                    Some(FdMapping::Regular(k2)) => nodes_after_close(p.open_nodes@, k2 as int),
                    _ => p.open_nodes@,
                };
                if closing is Some {
                    let d = drop_trailing_none(pre);
                    lemma_drop_trailing_none(pre);
                    assert(nodes_after_fd_close(*p, newfd) == d);
                    if pre[k as int] is Some {
                        assert(k < d.len());
                    }
                    if k < d.len() {
                        assert(d[k as int] == pre[k as int]);
                    }
                } else {
                    assert(nodes_after_fd_close(*p, newfd) == p.open_nodes@);
                }
            }
            match closing {
                Some(FdMapping::Regular(k2)) => {
                    if k2 == k {
                        if rc == 1 {
                            false
                        } else {
                            let rc2 = if rc > 0 { rc - 1 } else { 0 };
                            rc2 < usize::MAX
                        }
                    } else {
                        rc < usize::MAX
                    }
                },
                _ => rc < usize::MAX,
            }
        },
        FdMapping::PipeReadEnd(k) => {
            let (rd, wr) = match &pipes[k] {
                Some(q) => (q.readers_count, q.writers_count),
                None => (0, 0),
            };
            proof {
                match closing {
                    Some(FdMapping::PipeReadEnd(k2)) | Some(FdMapping::PipeWriteEnd(k2)) => {
                        let pre = pipes@.update(k2 as int, None);
                        let d = drop_trailing_none(pre);
                        if pre[k as int] is Some {
                            assert(k < d.len());
                        }
                        if k < d.len() {
                            assert(d[k as int] == pre[k as int]);
                        }
                    },
                    _ => {},
                }
            }
            match closing {
                Some(FdMapping::PipeReadEnd(k2)) => {
                    if k2 == k {
                        if rd == 1 && wr == 0 {
                            false
                        } else if rd >= 1 {
                            rd - 1 < usize::MAX
                        } else {
                            rd < usize::MAX
                        }
                    } else {
                        rd < usize::MAX
                    }
                },
                Some(FdMapping::PipeWriteEnd(k2)) => {
                    if k2 == k {
                        if wr == 1 && rd == 0 {
                            false
                        } else {
                            rd < usize::MAX
                        }
                    } else {
                        rd < usize::MAX
                    }
                },
                _ => rd < usize::MAX,
            }
        },
        FdMapping::PipeWriteEnd(k) => {
            let (rd, wr) = match &pipes[k] {
                Some(q) => (q.readers_count, q.writers_count),
                None => (0, 0),
            };
            proof {
                match closing {
                    Some(FdMapping::PipeReadEnd(k2)) | Some(FdMapping::PipeWriteEnd(k2)) => {
                        let pre = pipes@.update(k2 as int, None);
                        let d = drop_trailing_none(pre);
                        if pre[k as int] is Some {
                            assert(k < d.len());
                        }
                        if k < d.len() {
                            assert(d[k as int] == pre[k as int]);
                        }
                    },
                    _ => {},
                }
            }
            match closing {
                Some(FdMapping::PipeWriteEnd(k2)) => {
                    if k2 == k {
                        if wr == 1 && rd == 0 {
                            false
                        } else if wr >= 1 {
                            wr - 1 < usize::MAX
                        } else {
                            wr < usize::MAX
                        }
                    } else {
                        wr < usize::MAX
                    }
                },
                Some(FdMapping::PipeReadEnd(k2)) => {
                    if k2 == k {
                        if rd == 1 && wr == 0 {
                            false
                        } else {
                            wr < usize::MAX
                        }
                    } else {
                        wr < usize::MAX
                    }
                },
                _ => wr < usize::MAX,
            }
        },
        _ => true,
    }
}

/// What a call of [`dup2`] does: the result and the state after it.
pub open spec fn dup2_effect<F, D>(old_p: ProcessData<F, D>, new_p: ProcessData<F, D>, old_pipes: Seq<Option<ProcessPipe>>, new_pipes: Seq<Option<ProcessPipe>>, oldfd: usize, newfd: usize, r: isize) -> bool {
    &&& match mapping_of(old_p, oldfd) {
                None => r == -1 && new_p == old_p && new_pipes == old_pipes,
                Some(m) => {
                    &&& r == newfd as isize
                    &&& new_p.fd_mappings@ == fds_with(fds_after_close(old_p, newfd), newfd, m)
                    &&& new_p.open_nodes@ == nodes_after_dup(nodes_after_fd_close(old_p, newfd), m)
                    &&& new_pipes == pipes_after_dup(pipes_after_fd_close(old_p, old_pipes, newfd), m)
                    &&& same_process(new_p, old_p)
                },
            }
}

/// Makes `newfd` refer to what `oldfd` refers to, closing `newfd` first:
/// `newfd`, or -1 where `oldfd` is not open.
pub fn dup2<F, D>(proc_data: &mut ProcessData<F, D>, pipes: &mut Vec<Option<ProcessPipe>>, oldfd: usize, newfd: usize) -> (r: isize)
    requires
        descriptors_valid(*old(proc_data), old(pipes)@),
        mapping_of(*old(proc_data), oldfd) matches Some(m) ==> dup2_possible(*old(proc_data), old(pipes)@, m, newfd),
    ensures
        dup2_effect(*old(proc_data), *final(proc_data), old(pipes)@, final(pipes)@, oldfd, newfd, r),
{
    if oldfd >= proc_data.fd_mappings.len() {
        return -1;
    }
    let m = match proc_data.fd_mappings[oldfd] {
        Some(m) => m,
        None => {
            return -1;
        },
    };
    let _ = close(proc_data, pipes, newfd);
    add_reference(&mut proc_data.open_nodes, pipes, m);
    let ghost before = proc_data.fd_mappings@;
    if newfd > proc_data.fd_mappings.len() {
        extend_with_none(&mut proc_data.fd_mappings, newfd + 1);
    }
    proc_data.fd_mappings.set(newfd, Some(m));
    assert(proc_data.fd_mappings@ =~= fds_with(before, newfd, m));
    newfd as isize
}

/// What `waitpid` stores for a child that exited with `exit_code`: the low
/// byte of the code, as a little-endian 64-bit word.
pub open spec fn wait_status(exit_code: usize) -> Seq<u8> {
    le_bytes_u64((exit_code & 0xff) as u64)
}

/// What a call of [`waitpid`] does: the result and the state after it.
pub open spec fn waitpid_effect<F, D>(old_m: LittleEndianVirtualMemory, new_m: LittleEndianVirtualMemory, old_p: ProcessData<F, D>, new_p: ProcessData<F, D>, pid: isize, wstatus: u64, r: Option<isize>) -> bool {
    &&& match old_p.state {
                ProcessState::FINISHED_WAITING_FOR_CHILD_PROCESS(info) => {
                    &&& new_p == (ProcessData { state: ProcessState::RUNNING, ..old_p })
                    &&& match info {
                        Some(i) => if old_m.can_access(wstatus, 8) {
                            r == Some(i.cpid as isize) && new_m.byte_view() == store_bytes(
                                old_m.byte_view(),
                                wstatus,
                                wait_status(i.exit_code),
                            )
                        } else {
                            r == Some(-1isize) && new_m == old_m
                        },
                        None => r == Some(-1isize) && new_m == old_m,
                    }
                },
                _ => {
                    &&& new_m == old_m
                    &&& if pid == -1 {
                        r is None && new_p == (ProcessData {
                            state: ProcessState::WAITING_FOR_CHILD_PROCESS { cpid: None },
                            ..old_p
                        })
                    } else if pid > 0 {
                        r is None && new_p == (ProcessData {
                            state: ProcessState::WAITING_FOR_CHILD_PROCESS { cpid: Some(pid as usize) },
                            ..old_p
                        })
                    } else {
                        r == Some(-1isize) && new_p == old_p
                    }
                },
            }
}

/// Waits for a child. A process that the scheduler has told what became of
/// its child goes on running, and learns the child's id (and, at `wstatus`,
/// its exit status), or -1 where there was no such child or `wstatus` cannot
/// be written. Any other process starts to wait, for any child (`pid` -1) or
/// for child `pid` (`pid` > 0), and gets `None`: the call is to be made again
/// once the scheduler has news. Other values of `pid` give -1.
pub fn waitpid<F, D>(
    mem: &mut LittleEndianVirtualMemory,
    proc_data: &mut ProcessData<F, D>,
    pid: isize,
    wstatus: u64,
    options: usize,
) -> (r: Option<isize>)
    requires
        regions_wf(old(mem).regions()),
    ensures
        regions_wf(final(mem).regions()),
        forall|a: u64, s: nat| #[trigger] final(mem).can_access(a, s) == old(mem).can_access(a, s),
        waitpid_effect(*old(mem), *final(mem), *old(proc_data), *final(proc_data), pid, wstatus, r),
{
    match proc_data.state {
        ProcessState::FINISHED_WAITING_FOR_CHILD_PROCESS(info) => {
            proc_data.state = ProcessState::RUNNING;
            match info {
                Some(i) => {
                    let mut status: Vec<u8> = Vec::new();
                    put_u64_le(&mut status, (i.exit_code & 0xff) as u64);
                    match UserPointer::<[u8]>::from_mem(wstatus).try_write(mem, status.as_slice()) {
                        Some(_) => Some(i.cpid as isize),
                        None => Some(-1),
                    }
                },
                None => Some(-1),
            }
        },
        _ => {
            if pid == -1 {
                proc_data.state = ProcessState::WAITING_FOR_CHILD_PROCESS { cpid: None };
                None
            } else if pid > 0 {
                proc_data.state = ProcessState::WAITING_FOR_CHILD_PROCESS { cpid: Some(pid as usize) };
                None
            } else {
                Some(-1)
            }
        },
    }
}

/// What `pipe` stores: the read descriptor, then the write descriptor, each
/// as a little-endian 32-bit C `int`.
pub open spec fn pipe_fds_bytes(read_fd: usize, write_fd: usize) -> Seq<u8> {
    le_bytes_u32(read_fd as u32) + le_bytes_u32(write_fd as u32)
}

/// Makes a pipe with one reader and one writer, and two descriptors after all
/// others for its two ends, stored at `fds`: 0, or -1 (and nothing done)
/// where the 8 bytes at `fds` cannot be written.
pub fn pipe<F, D>(
    mem: &mut LittleEndianVirtualMemory,
    proc_data: &mut ProcessData<F, D>,
    pipes: &mut Vec<Option<ProcessPipe>>,
    fds: u64,
) -> (r: isize)
    requires
        regions_wf(old(mem).regions()),
    ensures
        regions_wf(final(mem).regions()),
        forall|a: u64, s: nat| #[trigger] final(mem).can_access(a, s) == old(mem).can_access(a, s),
        if old(mem).can_access(fds, 8) {
            let read_fd = old(proc_data).fd_mappings@.len();
            let k = old(pipes)@.len();
            &&& r == 0
            &&& final(pipes)@.len() == k + 1
            &&& final(pipes)@.drop_last() == old(pipes)@
            &&& final(pipes)@[k as int] matches Some(p) && p.buf@.len() == 0 && p.readers_count == 1
                && p.writers_count == 1
            &&& final(proc_data).fd_mappings@ == old(proc_data).fd_mappings@.push(
                Some(FdMapping::PipeReadEnd(k as usize)),
            ).push(Some(FdMapping::PipeWriteEnd(k as usize)))
            &&& final(proc_data).open_nodes == old(proc_data).open_nodes
            &&& same_process(*final(proc_data), *old(proc_data))
            &&& final(mem).byte_view() == store_bytes(
                old(mem).byte_view(),
                fds,
                pipe_fds_bytes(read_fd as usize, (read_fd + 1) as usize),
            )
        } else {
            r == -1 && *final(mem) == *old(mem) && *final(proc_data) == *old(proc_data) && final(pipes)@
                == old(pipes)@
        },
{
    let ptr = UserPointer::<[u8]>::from_mem(fds);
    match ptr.try_as_ref(mem, 8) {
        Some(_) => {},
        None => {
            return -1;
        },
    }
    let pipe_index = pipes.len();
    let new_pipe = ProcessPipe { buf: Vec::new(), readers_count: 1, writers_count: 1 };
    pipes.push(Some(new_pipe));
    let read_fd = proc_data.fd_mappings.len();
    proc_data.fd_mappings.push(Some(FdMapping::PipeReadEnd(pipe_index)));
    let write_fd = proc_data.fd_mappings.len();
    proc_data.fd_mappings.push(Some(FdMapping::PipeWriteEnd(pipe_index)));
    let mut bytes: Vec<u8> = Vec::new();
    put_u32_le(&mut bytes, read_fd as u32);
    put_u32_le(&mut bytes, write_fd as u32);
    assert(bytes@ =~= pipe_fds_bytes(read_fd, write_fd));
    let _ = ptr.try_write(mem, bytes.as_slice());
    0
}


/// The `buf_size` bytes that `getcwd` leaves where they were `old`: each
/// character of the working folder as a byte, then what was there, and a 0
/// in the last byte.
pub open spec fn cwd_bytes(old: Seq<u8>, cwd: Seq<char>) -> Seq<u8> {
    Seq::new(
        old.len(),
        |i: int|
            if i == old.len() - 1 {
                0u8
            } else if i < cwd.len() {
                cwd[i] as u8
            } else {
                old[i]
            },
    )
}

/// What a call of [`getcwd`] does: the result and the state after it.
pub open spec fn getcwd_effect<F, D>(old_m: LittleEndianVirtualMemory, new_m: LittleEndianVirtualMemory, proc_data: ProcessData<F, D>, buf: u64, buf_size: usize, r: u64) -> bool {
    &&& if vstd::utf8::encode_utf8(proc_data.cwd.view()).len() + 1 > buf_size || !old_m.can_access(
                buf,
                buf_size as nat,
            ) {
                r == 0 && new_m == old_m
            } else {
                r == buf && new_m.byte_view() == store_bytes(
                    old_m.byte_view(),
                    buf,
                    cwd_bytes(bytes_at(old_m.byte_view(), buf, buf_size as nat), proc_data.cwd.view()),
                )
            }
}

/// Stores the working folder, as a C string, in the `buf_size` bytes at
/// `buf`: `buf`, or 0 (and nothing stored) where its UTF-8 bytes and a 0 do
/// not fit in `buf_size` or those bytes cannot be written.
pub fn getcwd<F, D>(mem: &mut LittleEndianVirtualMemory, proc_data: &ProcessData<F, D>, buf: u64, buf_size: usize) -> (r: u64)
    requires
        regions_wf(old(mem).regions()),
    ensures
        regions_wf(final(mem).regions()),
        forall|a: u64, s: nat| #[trigger] final(mem).can_access(a, s) == old(mem).can_access(a, s),
        getcwd_effect(*old(mem), *final(mem), *proc_data, buf, buf_size, r),
{
    let s = proc_data.cwd.as_str();
    let blen = s.as_bytes().len();
    if blen >= buf_size {
        return 0;
    }
    let ptr = UserPointer::<[u8]>::from_mem(buf);
    let mut bytes = match ptr.try_as_ref(mem, buf_size) {
        Some(b) => b,
        None => {
            return 0;
        },
    };
    let ghost old_bytes = bytes@;
    let n = s.unicode_len();
    proof {
        lemma_utf8_len(s@);
    }
    let mut i: usize = 0;
    while i < n
        invariant
            n == s@.len(),
            n < buf_size,
            i <= n,
            bytes@.len() == buf_size,
            old_bytes.len() == buf_size,
            forall|j: int| 0 <= j < i ==> bytes@[j] == s@[j] as u8,
            forall|j: int| i <= j < buf_size ==> bytes@[j] == old_bytes[j],
        decreases n - i,
    {
        let c = s.get_char(i);
        bytes.set(i, c as u8);
        i = i + 1;
    }
    bytes.set(buf_size - 1, 0);
    assert(bytes@ =~= cwd_bytes(old_bytes, proc_data.cwd.view()));
    let _ = ptr.try_write(mem, bytes.as_slice());
    buf
}

/// The bytes at `buf` after a read of `got` into its `count` bytes, which
/// were `old`: what was read, then what was there.
pub open spec fn after_read(old: Seq<u8>, got: Seq<u8>) -> Seq<u8> {
    got + old.subrange(got.len() as int, old.len() as int)
}

/// Reads the bytes of a file from `cursor` on, one at a time, up to `count`
/// of them or to the end of the file or to the first byte the file does not
/// give: the bytes read.
fn read_file_bytes<F: IFile>(f: &F, cursor: u64, count: usize) -> (r: Vec<u8>)
    ensures
        r@.len() <= count,
        f.data().len() <= u64::MAX,
        r@.len() == 0 || (cursor + r@.len() <= f.data().len() && r@ == f.data().subrange(
            cursor as int,
            cursor + r@.len(),
        )),
{
    let size = f.get_size();
    let mut out: Vec<u8> = Vec::new();
    let mut index: usize = 0;
    while index < count
        invariant
            index <= count,
            out@.len() == index,
            size == f.data().len(),
            index == 0 || (cursor + index <= size && out@ == f.data().subrange(
                cursor as int,
                cursor + index,
            )),
        decreases count - index,
    {
        if index as u64 >= size || cursor > size - index as u64 - 1 {
            break;
        }
        match f.read(cursor + index as u64, 1) {
            Some(v) => {
                out.push(v[0]);
                assert(out@ =~= f.data().subrange(cursor as int, cursor + index + 1));
            },
            None => {
                break;
            },
        }
        index = index + 1;
    }
    out
}

/// Takes up to `count` bytes from the front of a pipe: the bytes taken.
fn take_from_pipe(buf: &mut Vec<u8>, count: usize) -> (r: Vec<u8>)
    ensures
        r@.len() == if count < old(buf)@.len() { count as int } else { old(buf)@.len() as int },
        r@ == old(buf)@.subrange(0, r@.len() as int),
        final(buf)@ == old(buf)@.subrange(r@.len() as int, old(buf)@.len() as int),
{
    let n = if count < buf.len() { count } else { buf.len() };
    let mut taken: Vec<u8> = Vec::new();
    let mut rest: Vec<u8> = Vec::new();
    let mut i: usize = 0;
    while i < buf.len()
        invariant
            n <= buf@.len(),
            buf@ == old(buf)@,
            i <= buf@.len(),
            taken@ == buf@.subrange(0, if i < n { i as int } else { n as int }),
            rest@ == if i < n { Seq::<u8>::empty() } else { buf@.subrange(n as int, i as int) },
        decreases buf@.len() - i,
    {
        if i < n {
            taken.push(buf[i]);
        } else {
            rest.push(buf[i]);
        }
        i = i + 1;
        assert(taken@ =~= buf@.subrange(0, if i < n { i as int } else { n as int }));
        assert(rest@ =~= if i < n { Seq::<u8>::empty() } else { buf@.subrange(n as int, i as int) });
    }
    *buf = rest;
    taken
}

/// What a call of [`read`] does: the result and the state after it.
pub open spec fn read_effect<F: IFile, D>(old_m: LittleEndianVirtualMemory, new_m: LittleEndianVirtualMemory, old_p: ProcessData<F, D>, new_p: ProcessData<F, D>, old_pipes: Seq<Option<ProcessPipe>>, new_pipes: Seq<Option<ProcessPipe>>, fd: usize, buf: u64, count: usize, stdin_byte: Option<u8>, r: Option<i32>) -> bool {
    &&& ({
                let old_bytes = bytes_at(old_m.byte_view(), buf, count as nat);
                let unchanged = new_m == old_m && new_p == old_p && new_pipes
                    == old_pipes;
                if !old_m.can_access(buf, count as nat) {
                    r == Some(-1i32) && unchanged
                } else {
                    match mapping_of(old_p, fd) {
                        Some(FdMapping::Regular(k)) => {
                            let n = old_p.open_nodes@[k as int]->0;
                            if n.flags & O_RDONLY == 0 || n.vfs_node is Folder {
                                r == Some(-1i32) && unchanged
                            } else {
                                let data = n.vfs_node->File_0.data();
                                let got_len = new_p.open_nodes@[k as int]->0.cursor - n.cursor;
                                let got = if got_len == 0 {
                                    Seq::<u8>::empty()
                                } else {
                                    data.subrange(n.cursor as int, n.cursor + got_len)
                                };
                                &&& 0 <= got_len <= count
                                &&& got_len == 0 || n.cursor + got_len <= data.len()
                                &&& r == Some(got_len as i32)
                                &&& new_m.byte_view() == store_bytes(
                                    old_m.byte_view(),
                                    buf,
                                    after_read(old_bytes, got),
                                )
                                &&& new_p.open_nodes@ == old_p.open_nodes@.update(
                                    k as int,
                                    Some(ProcessNode { cursor: (n.cursor + got_len) as u64, ..n }),
                                )
                                &&& new_p == (ProcessData { open_nodes: new_p.open_nodes, ..old_p })
                                &&& new_pipes == old_pipes
                            }
                        },
                        Some(FdMapping::PipeReadEnd(k)) => {
                            let p = old_pipes[k as int]->0;
                            let m = if count < p.buf@.len() { count as int } else { p.buf@.len() as int };
                            if m == 0 {
                                if p.writers_count == 0 {
                                    r == Some(0i32) && unchanged
                                } else {
                                    r is None && new_m == old_m && new_pipes == old_pipes
                                        && new_p == (ProcessData {
                                        state: ProcessState::WAITING_FOR_READ_PIPE { pipe_index: k },
                                        ..old_p
                                    })
                                }
                            } else {
                                &&& r == Some(m as i32)
                                &&& new_p == old_p
                                &&& new_m.byte_view() == store_bytes(
                                    old_m.byte_view(),
                                    buf,
                                    after_read(old_bytes, p.buf@.subrange(0, m)),
                                )
                                &&& new_pipes == old_pipes.update(k as int, new_pipes[k as int])
                                &&& new_pipes[k as int] matches Some(q) && q.buf@ == p.buf@.subrange(
                                    m,
                                    p.buf@.len() as int,
                                ) && q.readers_count == p.readers_count && q.writers_count == p.writers_count
                            }
                        },
                        Some(FdMapping::Stdin) => match stdin_byte {
                            Some(b) => if count >= 1 {
                                r == Some(1i32) && new_m.byte_view() == store_bytes(
                                    old_m.byte_view(),
                                    buf,
                                    after_read(old_bytes, seq![b]),
                                ) && new_p == old_p && new_pipes == old_pipes
                            } else {
                                r == Some(-1i32) && unchanged
                            },
                            None => r is None && unchanged,
                        },
                        _ => r == Some(-1i32) && unchanged,
                    }
                }
            })
}

/// Reads up to `count` bytes of what `fd` refers to into the memory at
/// `buf`: the number of bytes read, -1 on failure, or `None` where the
/// process has to wait and make the call again.
///
/// A file opened for reading gives its bytes from the cursor on, and the
/// cursor moves past them. A pipe gives the bytes written to it and not yet
/// read; an empty pipe gives 0 once it has no writers, else the process
/// waits for it. Standard input gives `stdin_byte`, the next character typed
/// (`None`: none yet, the call is to be made again). Everything else, a
/// `buf` whose `count` bytes cannot be written, and a read of no bytes from
/// standard input give -1.
pub fn read<F: IFile, D>(
    mem: &mut LittleEndianVirtualMemory,
    proc_data: &mut ProcessData<F, D>,
    pipes: &mut Vec<Option<ProcessPipe>>,
    fd: usize,
    buf: u64,
    count: usize,
    stdin_byte: Option<u8>,
) -> (r: Option<i32>)
    requires
        regions_wf(old(mem).regions()),
        descriptors_valid(*old(proc_data), old(pipes)@),
    ensures
        regions_wf(final(mem).regions()),
        forall|a: u64, s: nat| #[trigger] final(mem).can_access(a, s) == old(mem).can_access(a, s),
        read_effect(*old(mem), *final(mem), *old(proc_data), *final(proc_data), old(pipes)@, final(pipes)@, fd, buf, count, stdin_byte, r),
{
    let ptr = UserPointer::<[u8]>::from_mem(buf);
    let old_bytes = match ptr.try_as_ref(mem, count) {
        Some(b) => b,
        None => {
            return Some(-1);
        },
    };
    if fd >= proc_data.fd_mappings.len() {
        return Some(-1);
    }
    let mapping = match proc_data.fd_mappings[fd] {
        Some(m) => m,
        None => {
            return Some(-1);
        },
    };
    assert(match proc_data.fd_mappings@[fd as int] {
        Some(FdMapping::Regular(k)) => k < proc_data.open_nodes@.len() && proc_data.open_nodes@[k as int] is Some,
        Some(FdMapping::PipeReadEnd(k)) => k < pipes@.len() && pipes@[k as int] is Some,
        Some(FdMapping::PipeWriteEnd(k)) => k < pipes@.len() && pipes@[k as int] is Some,
        _ => true,
    });
    match mapping {
        FdMapping::Regular(k) => {
            let got = match &proc_data.open_nodes[k] {
                Some(node) => {
                    if node.flags & O_RDONLY == 0 {
                        return Some(-1);
                    }
                    match &node.vfs_node {
                        Node::File(f) => read_file_bytes(f, node.cursor, count),
                        Node::Folder(_) => {
                            return Some(-1);
                        },
                    }
                },
                None => {
                    return Some(-1);
                },
            };
            let mut slot: Option<ProcessNode<F, D>> = None;
            std::mem::swap(&mut slot, &mut proc_data.open_nodes[k]);
            assert(slot == old(proc_data).open_nodes@[k as int]);
            let ghost n0 = old(proc_data).open_nodes@[k as int]->0;
            if let Some(mut node) = slot {
                node.cursor = node.cursor + got.len() as u64;
                proc_data.open_nodes.set(k, Some(node));
            }
            assert(proc_data.open_nodes@ =~= old(proc_data).open_nodes@.update(
                k as int,
                Some(ProcessNode { cursor: (n0.cursor + got@.len()) as u64, ..n0 }),
            ));
            assert(got@.len() == 0 ==> got@ =~= Seq::<u8>::empty());
            assert(got@.len() == 0 || got@ == n0.vfs_node->File_0.data().subrange(n0.cursor as int, n0.cursor + got@.len()));
            let written = write_prefix(old_bytes, &got);
            let _ = ptr.try_write(mem, written.as_slice());
            assert(written@ =~= after_read(bytes_at(old(mem).byte_view(), buf, count as nat), got@));
            Some(got.len() as i32)
        },
        FdMapping::PipeReadEnd(k) => {
            let mut slot: Option<ProcessPipe> = None;
            std::mem::swap(&mut slot, &mut pipes[k]);
            assert(slot == old(pipes)@[k as int]);
            let mut p = match slot {
                Some(p) => p,
                None => {
                    return Some(-1);
                },
            };
            if count == 0 || p.buf.len() == 0 {
                let writers = p.writers_count;
                pipes.set(k, Some(p));
                assert(pipes@ =~= old(pipes)@);
                if writers == 0 {
                    return Some(0);
                } else {
                    proc_data.state = ProcessState::WAITING_FOR_READ_PIPE { pipe_index: k };
                    return None;
                }
            }
            let got = take_from_pipe(&mut p.buf, count);
            pipes.set(k, Some(p));
            assert(pipes@ =~= old(pipes)@.update(k as int, pipes@[k as int]));
            let written = write_prefix(old_bytes, &got);
            let _ = ptr.try_write(mem, written.as_slice());
            assert(written@ =~= after_read(bytes_at(old(mem).byte_view(), buf, count as nat), got@));
            Some(got.len() as i32)
        },
        FdMapping::Stdin => match stdin_byte {
            Some(b) => {
                if count == 0 {
                    return Some(-1);
                }
                let mut got: Vec<u8> = Vec::new();
                got.push(b);
                let written = write_prefix(old_bytes, &got);
                let _ = ptr.try_write(mem, written.as_slice());
                assert(got@ =~= seq![b]);
                assert(written@ =~= after_read(bytes_at(old(mem).byte_view(), buf, count as nat), got@));
                Some(1)
            },
            None => None,
        },
        _ => Some(-1),
    }
}

/// `old` with its first bytes replaced by `got`.
fn write_prefix(old: Vec<u8>, got: &Vec<u8>) -> (r: Vec<u8>)
    requires
        got@.len() <= old@.len(),
    ensures
        r@ == after_read(old@, got@),
{
    let mut out = old;
    let mut i: usize = 0;
    while i < got.len()
        invariant
            got@.len() <= out@.len(),
            out@.len() == old@.len(),
            i <= got@.len(),
            forall|j: int| 0 <= j < i ==> out@[j] == got@[j],
            forall|j: int| i <= j < out@.len() ==> out@[j] == old@[j],
        decreases got@.len() - i,
    {
        out.set(i, got[i]);
        i = i + 1;
    }
    assert(out@ =~= after_read(old@, got@));
    out
}

/// Appends `data` to a pipe's bytes.
fn append_bytes(buf: &mut Vec<u8>, data: &[u8])
    ensures
        final(buf)@ == old(buf)@ + data@,
{
    let mut i: usize = 0;
    while i < data.len()
        invariant
            i <= data@.len(),
            buf@ == old(buf)@ + data@.subrange(0, i as int),
        decreases data@.len() - i,
    {
        buf.push(data[i]);
        i = i + 1;
        assert(buf@ =~= old(buf)@ + data@.subrange(0, i as int));
    }
    assert(data@.subrange(0, data@.len() as int) =~= data@);
}

/// What a call of [`write`] does: the result and the state after it.
pub open spec fn write_effect<F: IFile, D>(mem: LittleEndianVirtualMemory, old_p: ProcessData<F, D>, new_p: ProcessData<F, D>, old_pipes: Seq<Option<ProcessPipe>>, new_pipes: Seq<Option<ProcessPipe>>, old_console: Seq<char>, new_console: Seq<char>, fd: usize, buf: u64, count: usize, r: i32) -> bool {
    &&& ({
                let bytes = bytes_at(mem.byte_view(), buf, count as nat);
                let unchanged = new_p == old_p && new_pipes == old_pipes
                    && new_console == old_console;
                if !mem.can_access(buf, count as nat) {
                    r == -1 && unchanged
                } else {
                    match mapping_of(old_p, fd) {
                        Some(FdMapping::Regular(k)) => {
                            let n = old_p.open_nodes@[k as int]->0;
                            if n.flags & O_WRONLY == 0 || n.vfs_node is Folder {
                                r == -1 && unchanged
                            } else {
                                let start = if n.flags & O_APPEND != 0 {
                                    n.vfs_node->File_0.data().len() as u64
                                } else {
                                    n.cursor
                                };
                                &&& new_p == (ProcessData {
                                    open_nodes: new_p.open_nodes,
                                    ..old_p
                                })
                                &&& new_pipes == old_pipes
                                &&& new_console == old_console
                                &&& new_p.open_nodes@ == old_p.open_nodes@.update(
                                    k as int,
                                    new_p.open_nodes@[k as int],
                                )
                                &&& new_p.open_nodes@[k as int] matches Some(n2) && n2.flags == n.flags
                                    && n2.path == n.path && n2.reference_count == n.reference_count
                                    && n2.vfs_node is File && ((r == -1 && n2.cursor == start) || ({
                                    let inc = n2.cursor - start;
                                    0 <= inc <= count && r == inc as i32 && n2.vfs_node->File_0.data().subrange(
                                        start as int,
                                        start + inc,
                                    ) == bytes.subrange(0, inc)
                                }))
                            }
                        },
                        Some(FdMapping::PipeWriteEnd(k)) => {
                            let p = old_pipes[k as int]->0;
                            if p.readers_count == 0 {
                                r == -1 && unchanged
                            } else {
                                &&& r == count as i32
                                &&& new_p == old_p
                                &&& new_console == old_console
                                &&& new_pipes == old_pipes.update(k as int, new_pipes[k as int])
                                &&& new_pipes[k as int] matches Some(q) && q.buf@ == p.buf@ + bytes
                                    && q.readers_count == p.readers_count && q.writers_count == p.writers_count
                            }
                        },
                        Some(FdMapping::Stdout) | Some(FdMapping::Stderr) => match utf8_decode(bytes) {
                            Some(text) => r == count as i32 && new_console == old_console + text
                                && new_p == old_p && new_pipes == old_pipes,
                            None => r == -1 && unchanged,
                        },
                        _ => r == -1 && unchanged,
                    }
                }
            })
}

/// Writes the `count` bytes at `buf` to what `fd` refers to: the number of
/// bytes written, or -1.
///
/// A file opened for writing takes them at its cursor (at its end where it
/// was opened to append), grows to hold them, and the cursor moves past
/// what was written. A pipe with readers takes them all. Standard output
/// and error take them where they are UTF-8: their text goes to `console`,
/// for the terminal. Everything else, a `buf` whose `count` bytes cannot be
/// read, and a file whose end would pass the largest offset give -1.
pub fn write<F: IFile, D>(
    mem: &LittleEndianVirtualMemory,
    proc_data: &mut ProcessData<F, D>,
    pipes: &mut Vec<Option<ProcessPipe>>,
    fd: usize,
    buf: u64,
    count: usize,
    console: &mut String,
) -> (r: i32)
    requires
        regions_wf(mem.regions()),
        descriptors_valid(*old(proc_data), old(pipes)@),
    ensures
        write_effect(*mem, *old(proc_data), *final(proc_data), old(pipes)@, final(pipes)@, old(console)@, final(console)@, fd, buf, count, r),
{
    let ptr = UserPointer::<[u8]>::from_mem(buf);
    let bytes = match ptr.try_as_ref(mem, count) {
        Some(b) => b,
        None => {
            return -1;
        },
    };
    if fd >= proc_data.fd_mappings.len() {
        return -1;
    }
    let mapping = match proc_data.fd_mappings[fd] {
        Some(m) => m,
        None => {
            return -1;
        },
    };
    assert(match proc_data.fd_mappings@[fd as int] {
        Some(FdMapping::Regular(k)) => k < proc_data.open_nodes@.len() && proc_data.open_nodes@[k as int] is Some,
        Some(FdMapping::PipeReadEnd(k)) => k < pipes@.len() && pipes@[k as int] is Some,
        Some(FdMapping::PipeWriteEnd(k)) => k < pipes@.len() && pipes@[k as int] is Some,
        _ => true,
    });
    match mapping {
        FdMapping::Regular(k) => {
            match &proc_data.open_nodes[k] {
                Some(node) => {
                    if node.flags & O_WRONLY == 0 {
                        return -1;
                    }
                    if let Node::Folder(_) = &node.vfs_node {
                        return -1;
                    }
                },
                None => {
                    return -1;
                },
            }
            let mut slot: Option<ProcessNode<F, D>> = None;
            std::mem::swap(&mut slot, &mut proc_data.open_nodes[k]);
            assert(slot == old(proc_data).open_nodes@[k as int]);
            let node = match slot {
                Some(n) => n,
                None => {
                    return -1;
                },
            };
            let ProcessNode { vfs_node, mut cursor, flags, path, reference_count } = node;
            let mut f = match vfs_node {
                Node::File(f) => f,
                Node::Folder(_) => {
                    return -1;
                },
            };
            if flags & O_APPEND != 0 {
                cursor = f.get_size();
            }
            let ghost start = cursor;
            let result: i32 = match cursor.checked_add(count as u64) {
                None => -1,
                Some(end) => {
                    let ok = if end > f.get_size() {
                        f.resize(end).is_some()
                    } else {
                        true
                    };
                    if !ok {
                        -1
                    } else {
                        match f.write(cursor, bytes.as_slice()) {
                            None => -1,
                            Some(inc) => {
                                cursor = cursor + inc as u64;
                                assert(bytes@.subrange(0, inc as int) == bytes_at(mem.byte_view(), buf, count as nat).subrange(0, inc as int));
                                inc as i32
                            },
                        }
                    }
                },
            };
            proc_data.open_nodes.set(
                k,
                Some(ProcessNode { vfs_node: Node::File(f), cursor, flags, path, reference_count }),
            );
            assert(proc_data.open_nodes@ =~= old(proc_data).open_nodes@.update(k as int, proc_data.open_nodes@[k as int]));
            result
        },
        FdMapping::PipeWriteEnd(k) => {
            let mut slot: Option<ProcessPipe> = None;
            std::mem::swap(&mut slot, &mut pipes[k]);
            assert(slot == old(pipes)@[k as int]);
            let mut p = match slot {
                Some(p) => p,
                None => {
                    return -1;
                },
            };
            if p.readers_count == 0 {
                pipes.set(k, Some(p));
                assert(pipes@ =~= old(pipes)@);
                return -1;
            }
            append_bytes(&mut p.buf, bytes.as_slice());
            pipes.set(k, Some(p));
            assert(pipes@ =~= old(pipes)@.update(k as int, pipes@[k as int]));
            count as i32
        },
        FdMapping::Stdout | FdMapping::Stderr => match string_from_utf8(bytes.as_slice()) {
            Some(text) => {
                console.append(text.as_str());
                count as i32
            },
            None => -1,
        },
        _ => -1,
    }
}

/// What the processor does once a system call has been served.
#[derive(Debug, Clone, Copy, PartialEq, Eq, Structural)]
#[allow(non_camel_case_types)]
pub enum CpuAction {
    /// Move past the call.
    NONE,
    /// Stay on the call, to make it again.
    REPEAT_INSTRUCTION,
}

/// A system call with its arguments, as the registers give them.
#[derive(Debug, Clone, Copy, PartialEq, Eq, Structural)]
pub enum SyscallRequest {
    Exit { exit_code: usize },
    Read { fd: usize, buf: u64, count: usize },
    Write { fd: usize, buf: u64, count: usize },
    Open { pathname: u64, flags: usize },
    Close { fd: usize },
    LSeek { fd: usize, offset: i64, whence: usize },
    Malloc { size: usize },
    Free { ptr: u64 },
    Realloc { ptr: u64, new_size: usize },
    Getcwd { buf: u64, size: usize },
    Getenv { name: u64 },
    Fchdir { fd: usize },
    Dup { oldfd: usize },
    Dup2 { oldfd: usize, newfd: usize },
    Fork,
    Waitpid { pid: isize, wstatus: u64, options: usize },
    Fexecve { fd: usize, argv: u64, envp: u64 },
    Execve { pathname: u64, argv: u64, envp: u64 },
    Execvpe { file: u64, argv: u64, envp: u64 },
}

/// The call `n` with the arguments `a0`..`a5`.
pub open spec fn request_for(n: SyscallNumber, a0: u64, a1: u64, a2: u64) -> Option<SyscallRequest> {
    match n {
        SyscallNumber::Exit => Some(SyscallRequest::Exit { exit_code: a0 as usize }),
        SyscallNumber::Read => Some(SyscallRequest::Read { fd: a0 as usize, buf: a1, count: a2 as usize }),
        SyscallNumber::Write => Some(SyscallRequest::Write { fd: a0 as usize, buf: a1, count: a2 as usize }),
        SyscallNumber::Open => Some(SyscallRequest::Open { pathname: a0, flags: a1 as usize }),
        SyscallNumber::Close => Some(SyscallRequest::Close { fd: a0 as usize }),
        SyscallNumber::LSeek => Some(
            SyscallRequest::LSeek { fd: a0 as usize, offset: a1 as i64, whence: a2 as usize },
        ),
        SyscallNumber::Malloc => Some(SyscallRequest::Malloc { size: a0 as usize }),
        SyscallNumber::Free => Some(SyscallRequest::Free { ptr: a0 }),
        SyscallNumber::Realloc => Some(SyscallRequest::Realloc { ptr: a0, new_size: a1 as usize }),
        SyscallNumber::Getcwd => Some(SyscallRequest::Getcwd { buf: a0, size: a1 as usize }),
        SyscallNumber::Getenv => Some(SyscallRequest::Getenv { name: a0 }),
        SyscallNumber::Fchdir => Some(SyscallRequest::Fchdir { fd: a0 as usize }),
        SyscallNumber::Dup => Some(SyscallRequest::Dup { oldfd: a0 as usize }),
        SyscallNumber::Dup2 => Some(SyscallRequest::Dup2 { oldfd: a0 as usize, newfd: a1 as usize }),
        SyscallNumber::Fork => Some(SyscallRequest::Fork),
        SyscallNumber::Waitpid => Some(
            SyscallRequest::Waitpid { pid: a0 as isize, wstatus: a1, options: a2 as usize },
        ),
        SyscallNumber::Fexecve => Some(SyscallRequest::Fexecve { fd: a0 as usize, argv: a1, envp: a2 }),
        SyscallNumber::Execve => Some(SyscallRequest::Execve { pathname: a0, argv: a1, envp: a2 }),
        SyscallNumber::Execvpe => Some(SyscallRequest::Execvpe { file: a0, argv: a1, envp: a2 }),
        SyscallNumber::MaxValue => None,
    }
}

/// The call that the registers ask for: its number in `a7`, its arguments
/// in `a0`, `a1` and `a2`; `None` for a number that names no call.
pub open spec fn request_of(regs: Seq<u64>) -> Option<SyscallRequest> {
    match syscall_of(reg(regs, 17) as usize) {
        Some(n) => request_for(n, reg(regs, 10), reg(regs, 11), reg(regs, 12)),
        None => None,
    }
}

/// Reads the call that the registers ask for.
pub fn decode_syscall(a7: u64, a0: u64, a1: u64, a2: u64) -> (r: Option<SyscallRequest>)
    ensures
        r == match syscall_of(a7 as usize) {
            Some(n) => request_for(n, a0, a1, a2),
            None => None,
        },
{
    let n = match SyscallNumber::try_from_number(a7 as usize) {
        Ok(n) => n,
        Err(_) => {
            return None;
        },
    };
    match n {
        SyscallNumber::Exit => Some(SyscallRequest::Exit { exit_code: a0 as usize }),
        SyscallNumber::Read => Some(SyscallRequest::Read { fd: a0 as usize, buf: a1, count: a2 as usize }),
        SyscallNumber::Write => Some(SyscallRequest::Write { fd: a0 as usize, buf: a1, count: a2 as usize }),
        SyscallNumber::Open => Some(SyscallRequest::Open { pathname: a0, flags: a1 as usize }),
        SyscallNumber::Close => Some(SyscallRequest::Close { fd: a0 as usize }),
        SyscallNumber::LSeek => Some(
            SyscallRequest::LSeek { fd: a0 as usize, offset: a1 as i64, whence: a2 as usize },
        ),
        SyscallNumber::Malloc => Some(SyscallRequest::Malloc { size: a0 as usize }),
        SyscallNumber::Free => Some(SyscallRequest::Free { ptr: a0 }),
        SyscallNumber::Realloc => Some(SyscallRequest::Realloc { ptr: a0, new_size: a1 as usize }),
        SyscallNumber::Getcwd => Some(SyscallRequest::Getcwd { buf: a0, size: a1 as usize }),
        SyscallNumber::Getenv => Some(SyscallRequest::Getenv { name: a0 }),
        SyscallNumber::Fchdir => Some(SyscallRequest::Fchdir { fd: a0 as usize }),
        SyscallNumber::Dup => Some(SyscallRequest::Dup { oldfd: a0 as usize }),
        SyscallNumber::Dup2 => Some(SyscallRequest::Dup2 { oldfd: a0 as usize, newfd: a1 as usize }),
        SyscallNumber::Fork => Some(SyscallRequest::Fork),
        SyscallNumber::Waitpid => Some(
            SyscallRequest::Waitpid { pid: a0 as isize, wstatus: a1, options: a2 as usize },
        ),
        SyscallNumber::Fexecve => Some(SyscallRequest::Fexecve { fd: a0 as usize, argv: a1, envp: a2 }),
        SyscallNumber::Execve => Some(SyscallRequest::Execve { pathname: a0, argv: a1, envp: a2 }),
        SyscallNumber::Execvpe => Some(SyscallRequest::Execvpe { file: a0, argv: a1, envp: a2 }),
        SyscallNumber::MaxValue => None,
    }
}

/// How a system call was met: served here, with what the processor does
/// next, or handed out, for a call that needs the file system's folders, the
/// memory of programs, the scheduler or the loading of a program.
#[derive(Debug, Clone, Copy, PartialEq, Eq, Structural)]
pub enum SyscallOutcome {
    Served(CpuAction),
    Outside(SyscallRequest),
}

/// Whether a descriptor that refers to `m` can be added by `dup`.
fn dup_allowed<F, D>(p: &ProcessData<F, D>, pipes: &Vec<Option<ProcessPipe>>, m: FdMapping) -> (r: bool)
    ensures
        r == (reference_room(p.open_nodes@, pipes@, m) && p.fd_mappings@.len() < isize::MAX),
{
    if p.fd_mappings.len() >= isize::MAX as usize {
        return false;
    }
    match m {
        FdMapping::Regular(k) => {
            if k >= p.open_nodes.len() {
                return false;
            }
            match &p.open_nodes[k] {
                Some(n) => n.reference_count < usize::MAX,
                None => false,
            }
        },
        FdMapping::PipeReadEnd(k) => {
            if k >= pipes.len() {
                return false;
            }
            match &pipes[k] {
                Some(q) => q.readers_count < usize::MAX,
                None => false,
            }
        },
        FdMapping::PipeWriteEnd(k) => {
            if k >= pipes.len() {
                return false;
            }
            match &pipes[k] {
                Some(q) => q.writers_count < usize::MAX,
                None => false,
            }
        },
        _ => true,
    }
}

/// The processor after a call: where it was, its registers `regs`, its
/// memory `mem`.
pub open spec fn cpu_after(
    before: Riscv64Cpu<LittleEndianVirtualMemory>,
    after: Riscv64Cpu<LittleEndianVirtualMemory>,
    regs: Seq<u64>,
    mem: LittleEndianVirtualMemory,
) -> bool {
    &&& after.pc() == before.pc()
    &&& after.is_halted() == before.is_halted()
    &&& after.regs() == regs
    &&& after.mem() == mem
}

/// Serves the system call that the registers of a process ask for (its
/// number in `a7`, its arguments from `a0` on), and puts its result in
/// `a0`. A number that names no call is ignored. Calls that need the file
/// system's folders, the memory of programs, the scheduler or a new program
/// are handed out, untouched. `stdin_byte` is the next character typed, for
/// a read of standard input; `console` takes the text written to standard
/// output and error. A `dup` that would count past the largest count, and a
/// `dup2` on which closing `newfd` first takes away what `oldfd` refers to
/// or leaves `newfd` just past the last descriptor, give -1.
pub fn syscall_entry_point<F: IFile, D>(
    emu: &mut Riscv64Cpu<LittleEndianVirtualMemory>,
    proc_data: &mut ProcessData<F, D>,
    pipes: &mut Vec<Option<ProcessPipe>>,
    stdin_byte: Option<u8>,
    console: &mut String,
) -> (r: SyscallOutcome)
    requires
        regions_wf(old(emu).mem().regions()),
        descriptors_valid(*old(proc_data), old(pipes)@),
    ensures
        regions_wf(final(emu).mem().regions()),
        ({
            let regs = old(emu).regs();
            let mem = old(emu).mem();
            let op = *old(proc_data);
            let np = *final(proc_data);
            let unchanged = cpu_after(*old(emu), *final(emu), regs, mem) && np == op && final(pipes)@
                == old(pipes)@ && final(console)@ == old(console)@;
            match request_of(regs) {
                None => r == SyscallOutcome::Served(CpuAction::NONE) && unchanged,
                Some(SyscallRequest::Exit { exit_code }) => r == SyscallOutcome::Served(CpuAction::NONE)
                    && cpu_after(*old(emu), *final(emu), regs, mem) && exit_effect(op, np, exit_code)
                    && final(pipes)@ == old(pipes)@ && final(console)@ == old(console)@,
                Some(SyscallRequest::Read { fd, buf, count }) => exists|v: Option<i32>|
                    #![trigger read_effect(mem, final(emu).mem(), op, np, old(pipes)@, final(pipes)@, fd, buf, count, stdin_byte, v)]
                    read_effect(mem, final(emu).mem(), op, np, old(pipes)@, final(pipes)@, fd, buf, count, stdin_byte, v)
                        && final(console)@ == old(console)@ && match v {
                        Some(x) => r == SyscallOutcome::Served(CpuAction::NONE) && cpu_after(
                            *old(emu),
                            *final(emu),
                            reg_write(regs, 10, x as i64 as u64),
                            final(emu).mem(),
                        ),
                        None => r == SyscallOutcome::Served(CpuAction::REPEAT_INSTRUCTION) && cpu_after(
                            *old(emu),
                            *final(emu),
                            regs,
                            final(emu).mem(),
                        ),
                    },
                Some(SyscallRequest::Write { fd, buf, count }) => exists|v: i32|
                    #![trigger write_effect(mem, op, np, old(pipes)@, final(pipes)@, old(console)@, final(console)@, fd, buf, count, v)]
                    write_effect(mem, op, np, old(pipes)@, final(pipes)@, old(console)@, final(console)@, fd, buf, count, v)
                        && r == SyscallOutcome::Served(CpuAction::NONE) && cpu_after(
                        *old(emu),
                        *final(emu),
                        reg_write(regs, 10, v as i64 as u64),
                        mem,
                    ),
                Some(SyscallRequest::Close { fd }) => exists|v: isize|
                    #![trigger close_effect(op, np, old(pipes)@, final(pipes)@, fd, v)]
                    close_effect(op, np, old(pipes)@, final(pipes)@, fd, v) && r == SyscallOutcome::Served(
                        CpuAction::NONE,
                    ) && cpu_after(*old(emu), *final(emu), reg_write(regs, 10, v as u64), mem)
                        && final(console)@ == old(console)@,
                Some(SyscallRequest::LSeek { fd, offset, whence }) => exists|v: i64|
                    #![trigger lseek_effect(op, np, fd, offset, whence, v)]
                    lseek_effect(op, np, fd, offset, whence, v) && r == SyscallOutcome::Served(CpuAction::NONE)
                        && cpu_after(*old(emu), *final(emu), reg_write(regs, 10, v as u64), mem)
                        && final(pipes)@ == old(pipes)@ && final(console)@ == old(console)@,
                Some(SyscallRequest::Getcwd { buf, size }) => exists|v: u64|
                    #![trigger getcwd_effect(mem, final(emu).mem(), op, buf, size, v)]
                    getcwd_effect(mem, final(emu).mem(), op, buf, size, v) && r == SyscallOutcome::Served(
                        CpuAction::NONE,
                    ) && cpu_after(*old(emu), *final(emu), reg_write(regs, 10, v), final(emu).mem()) && np == op
                        && final(pipes)@ == old(pipes)@ && final(console)@ == old(console)@,
                Some(SyscallRequest::Fchdir { fd }) => exists|v: isize|
                    #![trigger fchdir_effect(op, np, fd, v)]
                    fchdir_effect(op, np, fd, v) && r == SyscallOutcome::Served(CpuAction::NONE) && cpu_after(
                        *old(emu),
                        *final(emu),
                        reg_write(regs, 10, v as u64),
                        mem,
                    ) && final(pipes)@ == old(pipes)@ && final(console)@ == old(console)@,
                Some(SyscallRequest::Dup { oldfd }) => r == SyscallOutcome::Served(CpuAction::NONE)
                    && final(console)@ == old(console)@ && if mapping_of(op, oldfd) matches Some(m) && !(
                reference_room(op.open_nodes@, old(pipes)@, m) && op.fd_mappings@.len() < isize::MAX) {
                    cpu_after(*old(emu), *final(emu), reg_write(regs, 10, -1isize as u64), mem) && np == op
                        && final(pipes)@ == old(pipes)@
                } else {
                    exists|v: isize|
                        #![trigger dup_effect(op, np, old(pipes)@, final(pipes)@, oldfd, v)]
                        dup_effect(op, np, old(pipes)@, final(pipes)@, oldfd, v) && cpu_after(
                            *old(emu),
                            *final(emu),
                            reg_write(regs, 10, v as u64),
                            mem,
                        )
                },
                Some(SyscallRequest::Dup2 { oldfd, newfd }) => r == SyscallOutcome::Served(CpuAction::NONE)
                    && final(console)@ == old(console)@ && if mapping_of(op, oldfd) matches Some(m) && !dup2_possible(
                    op,
                    old(pipes)@,
                    m,
                    newfd,
                ) {
                    cpu_after(*old(emu), *final(emu), reg_write(regs, 10, -1isize as u64), mem) && np == op
                        && final(pipes)@ == old(pipes)@
                } else {
                    exists|v: isize|
                        #![trigger dup2_effect(op, np, old(pipes)@, final(pipes)@, oldfd, newfd, v)]
                        dup2_effect(op, np, old(pipes)@, final(pipes)@, oldfd, newfd, v) && cpu_after(
                            *old(emu),
                            *final(emu),
                            reg_write(regs, 10, v as u64),
                            mem,
                        )
                },
                Some(SyscallRequest::Waitpid { pid, wstatus, options }) => exists|v: Option<isize>|
                    #![trigger waitpid_effect(mem, final(emu).mem(), op, np, pid, wstatus, v)]
                    waitpid_effect(mem, final(emu).mem(), op, np, pid, wstatus, v) && final(pipes)@ == old(
                        pipes,
                    )@ && final(console)@ == old(console)@ && match v {
                        Some(x) => r == SyscallOutcome::Served(CpuAction::NONE) && cpu_after(
                            *old(emu),
                            *final(emu),
                            reg_write(regs, 10, x as u64),
                            final(emu).mem(),
                        ),
                        None => r == SyscallOutcome::Served(CpuAction::REPEAT_INSTRUCTION) && cpu_after(
                            *old(emu),
                            *final(emu),
                            regs,
                            final(emu).mem(),
                        ),
                    },
                Some(req) => r == SyscallOutcome::Outside(req) && unchanged,
            }
        }),
{
    let a7 = emu.read_reg(17);
    let a0 = emu.read_reg(10);
    let a1 = emu.read_reg(11);
    let a2 = emu.read_reg(12);
    let req = match decode_syscall(a7, a0, a1, a2) {
        Some(req) => req,
        None => {
            return SyscallOutcome::Served(CpuAction::NONE);
        },
    };
    match req {
        SyscallRequest::Exit { exit_code } => {
            exit(proc_data, exit_code);
            SyscallOutcome::Served(CpuAction::NONE)
        },
        SyscallRequest::Read { fd, buf, count } => {
            let v = {
                let mem = emu.get_memory_mut();
                read(mem, proc_data, pipes, fd, buf, count, stdin_byte)
            };
            match v {
                Some(x) => {
                    emu.write_reg(10, x as i64 as u64);
                    SyscallOutcome::Served(CpuAction::NONE)
                },
                None => SyscallOutcome::Served(CpuAction::REPEAT_INSTRUCTION),
            }
        },
        SyscallRequest::Write { fd, buf, count } => {
            let v = write(emu.get_memory(), proc_data, pipes, fd, buf, count, console);
            emu.write_reg(10, v as i64 as u64);
            SyscallOutcome::Served(CpuAction::NONE)
        },
        SyscallRequest::Close { fd } => {
            let v = close(proc_data, pipes, fd);
            emu.write_reg(10, v as u64);
            SyscallOutcome::Served(CpuAction::NONE)
        },
        SyscallRequest::LSeek { fd, offset, whence } => {
            proof {
                assert forall|k: int| 0 <= k < proc_data.fd_mappings@.len() implies (#[trigger] proc_data.fd_mappings@[k] matches Some(
                    FdMapping::Regular(j),
                ) ==> j < proc_data.open_nodes@.len() && proc_data.open_nodes@[j as int] is Some) by {}
            }
            let v = lseek(proc_data, fd, offset, whence);
            emu.write_reg(10, v as u64);
            SyscallOutcome::Served(CpuAction::NONE)
        },
        SyscallRequest::Getcwd { buf, size } => {
            let v = {
                let mem = emu.get_memory_mut();
                getcwd(mem, proc_data, buf, size)
            };
            emu.write_reg(10, v);
            SyscallOutcome::Served(CpuAction::NONE)
        },
        SyscallRequest::Fchdir { fd } => {
            proof {
                assert forall|k: int| 0 <= k < proc_data.fd_mappings@.len() implies (#[trigger] proc_data.fd_mappings@[k] matches Some(
                    FdMapping::Regular(j),
                ) ==> j < proc_data.open_nodes@.len() && proc_data.open_nodes@[j as int] is Some) by {}
            }
            let v = fchdir(proc_data, fd);
            emu.write_reg(10, v as u64);
            SyscallOutcome::Served(CpuAction::NONE)
        },
        SyscallRequest::Dup { oldfd } => {
            if oldfd < proc_data.fd_mappings.len() {
                if let Some(m) = proc_data.fd_mappings[oldfd] {
                    if !dup_allowed(proc_data, pipes, m) {
                        emu.write_reg(10, -1isize as u64);
                        return SyscallOutcome::Served(CpuAction::NONE);
                    }
                }
            }
            let v = dup(proc_data, pipes, oldfd);
            emu.write_reg(10, v as u64);
            SyscallOutcome::Served(CpuAction::NONE)
        },
        SyscallRequest::Dup2 { oldfd, newfd } => {
            if oldfd < proc_data.fd_mappings.len() {
                if proc_data.fd_mappings[oldfd].is_some() {
                    if !dup2_allowed(proc_data, pipes, oldfd, newfd) {
                        emu.write_reg(10, -1isize as u64);
                        return SyscallOutcome::Served(CpuAction::NONE);
                    }
                }
            }
            let v = dup2(proc_data, pipes, oldfd, newfd);
            emu.write_reg(10, v as u64);
            SyscallOutcome::Served(CpuAction::NONE)
        },
        SyscallRequest::Waitpid { pid, wstatus, options } => {
            let v = {
                let mem = emu.get_memory_mut();
                waitpid(mem, proc_data, pid, wstatus, options)
            };
            match v {
                Some(x) => {
                    emu.write_reg(10, x as u64);
                    SyscallOutcome::Served(CpuAction::NONE)
                },
                None => SyscallOutcome::Served(CpuAction::REPEAT_INSTRUCTION),
            }
        },
        _ => SyscallOutcome::Outside(req),
    }
}

} // verus!
