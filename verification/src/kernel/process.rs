//! The kernel's processes: their open files and file descriptors, pipes,
//! state, and the closing of a file descriptor.
use crate::kernel::allocator::BasicAlloc;
use crate::kernel::vfs::{Node, Path};
use vstd::prelude::*;

verus! {

/// A pipe between processes: the bytes written and not yet read, and how
/// many descriptors read from and write to it.
#[derive(Debug)]
pub struct ProcessPipe {
    pub buf: Vec<u8>,
    pub readers_count: usize,
    pub writers_count: usize,
}

/// A file or folder that a process has open.
pub struct ProcessNode<F, D> {
    pub vfs_node: Node<F, D>,
    /// The byte to read or write next.
    pub cursor: u64,
    pub flags: usize,
    pub path: Path,
    /// How many descriptors refer to it.
    pub reference_count: usize,
}

/// What a file descriptor refers to.
#[derive(Debug, Clone, Copy, PartialEq, Eq, Structural)]
pub enum FdMapping {
    Regular(usize),
    PipeReadEnd(usize),
    PipeWriteEnd(usize),
    Stdin,
    Stdout,
    Stderr,
}

/// What a process that waited for a child learns: the child and its exit code.
#[derive(Debug, Clone, Copy, PartialEq, Eq, Structural)]
pub struct WaitInformation {
    pub cpid: usize,
    pub exit_code: usize,
}

/// The state of a process.
#[derive(Debug, Clone, Copy, PartialEq, Eq, Structural)]
#[allow(non_camel_case_types)]
pub enum ProcessState {
    RUNNING,
    RUNNING_NEW_CHILD_JUST_FORKED,
    WAITING_FOR_CHILD_PROCESS { cpid: Option<usize> },
    WAITING_FOR_READ_PIPE { pipe_index: usize },
    /// Tells the process, once it runs again, what became of the child it waited for.
    FINISHED_WAITING_FOR_CHILD_PROCESS(Option<WaitInformation>),
    /// Ended, and waits for its parent to learn it.
    TERMINATED_NORMALLY_CHILD_WAITING_FOR_PARENT_ACKNOWLEDGEMENT { exit_code: usize },
    TERMINATED_NORMALLY_WAITING_TO_BE_DEALLOCATED { exit_code: usize },
    TERMINATED_DUE_TO_ILLEGAL_INSTRUCTION_WAITING_TO_BE_DEALLOCATED,
    TERMINATED_DUE_TO_ILLEGAL_INSTRUCTION_CHILD_WAITING_FOR_PARENT_ACKNOWLEDGEMENT,
}

/// What the kernel keeps of a process besides its processor. The lists keep
/// their indices: a closed entry becomes `None`, and only trailing `None`s
/// are dropped.
pub struct ProcessData<F, D> {
    pub open_nodes: Vec<Option<ProcessNode<F, D>>>,
    /// What each file descriptor refers to.
    pub fd_mappings: Vec<Option<FdMapping>>,
    pub cwd: Path,
    /// The environment: each variable's name and the address of its value.
    pub env: Vec<(String, u64)>,
    pub virtual_allocator: BasicAlloc,
    pub state: ProcessState,
    pub pid: Option<usize>,
    pub parent_pid: Option<usize>,
}

/// No variable name occurs twice in the environment `env`.
pub open spec fn env_names_distinct(env: Seq<(String, u64)>) -> bool {
    forall|i: int, j: int| 0 <= i < j < env.len() ==> (#[trigger] env[i]).0@ != (#[trigger] env[j]).0@
}

/// `s` without its trailing `None`s.
pub open spec fn drop_trailing_none<T>(s: Seq<Option<T>>) -> Seq<Option<T>>
    decreases s.len(),
{
    if s.len() > 0 && s.last() is None {
        drop_trailing_none(s.drop_last())
    } else {
        s
    }
}

/// Dropping the trailing `None`s keeps a prefix that holds every `Some`,
/// and ends in a `Some` unless it is empty.
pub proof fn lemma_drop_trailing_none<T>(s: Seq<Option<T>>)
    ensures
        drop_trailing_none(s).len() <= s.len(),
        drop_trailing_none(s) == s.subrange(0, drop_trailing_none(s).len() as int),
        forall|i: int| drop_trailing_none(s).len() <= i < s.len() ==> s[i] is None,
        drop_trailing_none(s).len() > 0 ==> s[drop_trailing_none(s).len() - 1] is Some,
    decreases s.len(),
{
    if s.len() > 0 && s.last() is None {
        lemma_drop_trailing_none(s.drop_last());
        let d = drop_trailing_none(s.drop_last());
        assert(s.drop_last().subrange(0, d.len() as int) =~= s.subrange(0, d.len() as int));
        assert forall|i: int| d.len() <= i < s.len() implies s[i] is None by {
            if i < s.len() - 1 {
                assert(s.drop_last()[i] == s[i]);
            }
        }
    } else {
        assert(s.subrange(0, s.len() as int) =~= s);
    }
}

/// Drops the trailing `None`s of `v`.
pub fn pop_trailing_none<T>(v: &mut Vec<Option<T>>)
    ensures
        final(v)@ == drop_trailing_none(old(v)@),
{
    loop
        invariant
            drop_trailing_none(v@) == drop_trailing_none(old(v)@),
        ensures
            v@ == drop_trailing_none(old(v)@),
        decreases v@.len(),
    {
        let n = v.len();
        if n == 0 {
            break;
        }
        if v[n - 1].is_some() {
            break;
        }
        let _ = v.pop();
    }
}

impl<F, D> ProcessData<F, D> {
    /// A running process in `cwd`, with descriptors 0, 1 and 2 for standard
    /// input, output and error and nothing open.
    pub fn new(cwd: Path, env: Vec<(String, u64)>, virtual_allocator: BasicAlloc) -> (r: Self)
        requires
            env_names_distinct(env@),
        ensures
            r.open_nodes@.len() == 0,
            r.fd_mappings@ == seq![Some(FdMapping::Stdin), Some(FdMapping::Stdout), Some(FdMapping::Stderr)],
            r.cwd == cwd,
            r.env == env,
            r.virtual_allocator == virtual_allocator,
            r.state == ProcessState::RUNNING,
            r.pid is None,
            r.parent_pid is None,
    {
        let mut fd_mappings: Vec<Option<FdMapping>> = Vec::new();
        fd_mappings.push(Some(FdMapping::Stdin));
        fd_mappings.push(Some(FdMapping::Stdout));
        fd_mappings.push(Some(FdMapping::Stderr));
        ProcessData {
            open_nodes: Vec::new(),
            fd_mappings,
            cwd,
            env,
            virtual_allocator,
            state: ProcessState::RUNNING,
            pid: None,
            parent_pid: None,
        }
    }
}

/// Every descriptor of `p` refers to an open node or to a pipe that exists.
pub open spec fn descriptors_valid<F, D>(p: ProcessData<F, D>, pipes: Seq<Option<ProcessPipe>>) -> bool {
    forall|fd: int|
        0 <= fd < p.fd_mappings@.len() ==> match #[trigger] p.fd_mappings@[fd] {
            Some(FdMapping::Regular(k)) => k < p.open_nodes@.len() && p.open_nodes@[k as int] is Some,
            Some(FdMapping::PipeReadEnd(k)) => k < pipes.len() && pipes[k as int] is Some,
            Some(FdMapping::PipeWriteEnd(k)) => k < pipes.len() && pipes[k as int] is Some,
            _ => true,
        }
}

/// The reference count of an open node, one less (but not below 0).
pub open spec fn unreferenced<F, D>(n: ProcessNode<F, D>) -> ProcessNode<F, D> {
    ProcessNode { reference_count: (if n.reference_count > 0 { n.reference_count - 1 } else { 0 }) as usize, ..n }
}

/// The open nodes after closing a descriptor of node `k`: it goes with its
/// last reference, else it loses one.
pub open spec fn nodes_after_close<F, D>(nodes: Seq<Option<ProcessNode<F, D>>>, k: int) -> Seq<Option<ProcessNode<F, D>>> {
    let n = nodes[k].unwrap();
    if n.reference_count == 1 {
        nodes.update(k, None)
    } else {
        nodes.update(k, Some(unreferenced(n)))
    }
}

/// The pipes after closing a read end of pipe `k`: it goes when this was its
/// last reader and it has no writer, else it loses a reader.
pub open spec fn pipes_after_read_close(pipes: Seq<Option<ProcessPipe>>, k: int) -> Seq<Option<ProcessPipe>> {
    let p = pipes[k].unwrap();
    if p.readers_count == 1 && p.writers_count == 0 {
        drop_trailing_none(pipes.update(k, None))
    } else if p.readers_count >= 1 {
        pipes.update(k, Some(ProcessPipe { readers_count: (p.readers_count - 1) as usize, ..p }))
    } else {
        pipes
    }
}

/// The pipes after closing a write end of pipe `k`.
pub open spec fn pipes_after_write_close(pipes: Seq<Option<ProcessPipe>>, k: int) -> Seq<Option<ProcessPipe>> {
    let p = pipes[k].unwrap();
    if p.writers_count == 1 && p.readers_count == 0 {
        drop_trailing_none(pipes.update(k, None))
    } else if p.writers_count >= 1 {
        pipes.update(k, Some(ProcessPipe { writers_count: (p.writers_count - 1) as usize, ..p }))
    } else {
        pipes
    }
}

/// What descriptor `fd` of `p` refers to; `None` where it is not open.
pub open spec fn mapping_of<F, D>(p: ProcessData<F, D>, fd: usize) -> Option<FdMapping> {
    if fd < p.fd_mappings@.len() {
        p.fd_mappings@[fd as int]
    } else {
        None
    }
}

/// The open nodes after a descriptor that refers to `m` is closed.
pub open spec fn open_nodes_after_close<F, D>(nodes: Seq<Option<ProcessNode<F, D>>>, m: FdMapping) -> Seq<Option<ProcessNode<F, D>>> {
    drop_trailing_none(
        match m {
            FdMapping::Regular(k) => nodes_after_close(nodes, k as int),
            _ => nodes,
        },
    )
}

/// The pipes after a descriptor that refers to `m` is closed.
pub open spec fn pipes_after_close(pipes: Seq<Option<ProcessPipe>>, m: FdMapping) -> Seq<Option<ProcessPipe>> {
    match m {
        FdMapping::PipeReadEnd(k) => pipes_after_read_close(pipes, k as int),
        FdMapping::PipeWriteEnd(k) => pipes_after_write_close(pipes, k as int),
        _ => pipes,
    }
}

/// The descriptors of `p` after `fd` is closed (unchanged where it is not open).
pub open spec fn fds_after_close<F, D>(p: ProcessData<F, D>, fd: usize) -> Seq<Option<FdMapping>> {
    match mapping_of(p, fd) {
        Some(_) => drop_trailing_none(p.fd_mappings@.update(fd as int, None)),
        None => p.fd_mappings@,
    }
}

/// The open nodes of `p` after `fd` is closed.
pub open spec fn nodes_after_fd_close<F, D>(p: ProcessData<F, D>, fd: usize) -> Seq<Option<ProcessNode<F, D>>> {
    match mapping_of(p, fd) {
        Some(m) => open_nodes_after_close(p.open_nodes@, m),
        None => p.open_nodes@,
    }
}

/// The pipes after `fd` of `p` is closed.
pub open spec fn pipes_after_fd_close<F, D>(p: ProcessData<F, D>, pipes: Seq<Option<ProcessPipe>>, fd: usize) -> Seq<Option<ProcessPipe>> {
    match mapping_of(p, fd) {
        Some(m) => pipes_after_close(pipes, m),
        None => pipes,
    }
}

/// `q` is `p` with other descriptors and open nodes: its working folder,
/// environment, allocator, state and ids are those of `p`.
pub open spec fn same_process<F, D>(q: ProcessData<F, D>, p: ProcessData<F, D>) -> bool {
    &&& q.cwd == p.cwd
    &&& q.env == p.env
    &&& q.virtual_allocator == p.virtual_allocator
    &&& q.state == p.state
    &&& q.pid == p.pid
    &&& q.parent_pid == p.parent_pid
}

/// What a call of [`close`] does: the result and the state after it.
pub open spec fn close_effect<F, D>(
    old_p: ProcessData<F, D>,
    new_p: ProcessData<F, D>,
    old_pipes: Seq<Option<ProcessPipe>>,
    new_pipes: Seq<Option<ProcessPipe>>,
    fd: usize,
    r: isize,
) -> bool {
    &&& r == (if mapping_of(old_p, fd) is Some { 0isize } else { -1isize })
    &&& mapping_of(old_p, fd) is None ==> new_p == old_p
    &&& new_p.fd_mappings@ == fds_after_close(old_p, fd)
    &&& new_p.open_nodes@ == nodes_after_fd_close(old_p, fd)
    &&& new_pipes == pipes_after_fd_close(old_p, old_pipes, fd)
    &&& same_process(new_p, old_p)
}

/// Closes the file descriptor `fd` of a process: 0, or -1 where `fd` is not
/// open. A node goes with its last descriptor, a pipe once it has neither
/// readers nor writers left, and the trailing free entries of the lists go.
pub fn close<F, D>(proc_data: &mut ProcessData<F, D>, pipes: &mut Vec<Option<ProcessPipe>>, fd: usize) -> (r: isize)
    requires
        descriptors_valid(*old(proc_data), old(pipes)@),
    ensures
        close_effect(*old(proc_data), *final(proc_data), old(pipes)@, final(pipes)@, fd, r),
{
    if fd >= proc_data.fd_mappings.len() {
        return -1;
    }
    let fd_mapping = match proc_data.fd_mappings[fd] {
        Some(m) => m,
        None => return -1,
    };
    assert(descriptors_valid(*old(proc_data), old(pipes)@) ==> match old(proc_data).fd_mappings@[fd as int] {
        Some(FdMapping::Regular(k)) => k < old(proc_data).open_nodes@.len() && old(proc_data).open_nodes@[k as int] is Some,
        Some(FdMapping::PipeReadEnd(k)) => k < old(pipes)@.len() && old(pipes)@[k as int] is Some,
        Some(FdMapping::PipeWriteEnd(k)) => k < old(pipes)@.len() && old(pipes)@[k as int] is Some,
        _ => true,
    });
    match fd_mapping {
        FdMapping::Regular(node_index) => {
            let mut slot: Option<ProcessNode<F, D>> = None;
            std::mem::swap(&mut slot, &mut proc_data.open_nodes[node_index]);
            assert(slot == old(proc_data).open_nodes@[node_index as int]);
            assert(proc_data.open_nodes@ == old(proc_data).open_nodes@.update(node_index as int, None));
            match slot {
                Some(node) => {
                    if node.reference_count == 1 {
                    } else {
                        let rc = if node.reference_count > 0 { node.reference_count - 1 } else { 0 };
                        proc_data.open_nodes.set(node_index, Some(ProcessNode { reference_count: rc, ..node }));
                        assert(proc_data.open_nodes@ =~= old(proc_data).open_nodes@.update(node_index as int, Some(unreferenced(node))));
                    }
                },
                None => {},
            }
            assert(proc_data.open_nodes@ =~= nodes_after_close(old(proc_data).open_nodes@, node_index as int));
        },
        FdMapping::PipeReadEnd(pipe_index) => {
            let mut slot: Option<ProcessPipe> = None;
            std::mem::swap(&mut slot, &mut pipes[pipe_index]);
            match slot {
                Some(pipe) => {
                    if pipe.readers_count == 1 && pipe.writers_count == 0 {
                        pop_trailing_none(pipes);
                    } else if pipe.readers_count >= 1 {
                        pipes.set(pipe_index, Some(ProcessPipe { readers_count: pipe.readers_count - 1, ..pipe }));
                    } else {
                        pipes.set(pipe_index, Some(pipe));
                    }
                },
                None => {},
            }
        },
        FdMapping::PipeWriteEnd(pipe_index) => {
            let mut slot: Option<ProcessPipe> = None;
            std::mem::swap(&mut slot, &mut pipes[pipe_index]);
            match slot {
                Some(pipe) => {
                    if pipe.writers_count == 1 && pipe.readers_count == 0 {
                        pop_trailing_none(pipes);
                    } else if pipe.writers_count >= 1 {
                        pipes.set(pipe_index, Some(ProcessPipe { writers_count: pipe.writers_count - 1, ..pipe }));
                    } else {
                        pipes.set(pipe_index, Some(pipe));
                    }
                },
                None => {},
            }
        },
        FdMapping::Stdin | FdMapping::Stdout | FdMapping::Stderr => {},
    }
    proc_data.fd_mappings.set(fd, None);
    pop_trailing_none(&mut proc_data.fd_mappings);
    pop_trailing_none(&mut proc_data.open_nodes);
    assert(proc_data.fd_mappings@ =~= fds_after_close(*old(proc_data), fd));
    assert(proc_data.open_nodes@ =~= nodes_after_fd_close(*old(proc_data), fd));
    assert(pipes@ =~= pipes_after_fd_close(*old(proc_data), old(pipes)@, fd));
    0
}

} // verus!
