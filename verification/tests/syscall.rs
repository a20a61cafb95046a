use ron::kernel::allocator::BasicAlloc;
use ron::kernel::emulator::cpu::Riscv64Cpu;
use ron::kernel::emulator::EmulatorMemory;
use ron::kernel::process::{FdMapping, ProcessData, ProcessNode, ProcessPipe, ProcessState, WaitInformation};
use ron::kernel::syscall::{
    decode_syscall, dup, dup2, dup2_allowed, exit, fchdir, getcwd, lseek, pipe, read, syscall_entry_point, waitpid,
    CpuAction, SyscallOutcome, SyscallRequest,
};
use ron::kernel::syscall;
use ron::kernel::vfs::{IFile, Node, Path};
use ron::kernel::virtmem::{LittleEndianVirtualMemory, UserPointer, VirtualMemory};
use ron::rlibc::sys::{O_APPEND, O_RDONLY, O_RDWR, O_WRONLY, SEEK_CUR, SEEK_END, SEEK_SET};

struct MemFile {
    bytes: Vec<u8>,
}

impl IFile for MemFile {
    fn data(&self) -> vstd::seq::Seq<u8> {
        unreachable!()
    }

    fn read(&self, offset: u64, len: usize) -> Option<Vec<u8>> {
        let start = offset as usize;
        if start.checked_add(len)? > self.bytes.len() {
            return None;
        }
        Some(self.bytes[start..start + len].to_vec())
    }

    fn write(&mut self, offset: u64, data: &[u8]) -> Option<usize> {
        let start = offset as usize;
        if start + data.len() > self.bytes.len() {
            return None;
        }
        self.bytes[start..start + data.len()].copy_from_slice(data);
        Some(data.len())
    }

    fn get_size(&self) -> u64 {
        self.bytes.len() as u64
    }

    fn resize(&mut self, new_size: u64) -> Option<()> {
        self.bytes.resize(new_size as usize, 0);
        Some(())
    }
}

type Data = ProcessData<MemFile, ()>;

fn data() -> Data {
    ProcessData::new(Path::root(), Vec::new(), BasicAlloc::from(0, 0, true))
}

fn with_file(bytes: &[u8], flags: usize, path: &str) -> Data {
    let mut d = data();
    d.open_nodes.push(Some(ProcessNode {
        vfs_node: Node::File(MemFile { bytes: bytes.to_vec() }),
        cursor: 0,
        flags,
        path: Path::try_from_str(path).unwrap(),
        reference_count: 1,
    }));
    d.fd_mappings.push(Some(FdMapping::Regular(0)));
    d
}

fn file_bytes(d: &Data, k: usize) -> Vec<u8> {
    match &d.open_nodes[k].as_ref().unwrap().vfs_node {
        Node::File(f) => f.bytes.clone(),
        Node::Folder(_) => panic!("not a file"),
    }
}

fn memory_with(addr: u64, bytes: Vec<u8>) -> LittleEndianVirtualMemory {
    let mut mem = LittleEndianVirtualMemory::new();
    mem.add_region(addr, bytes).unwrap();
    mem
}

fn bytes_at(mem: &LittleEndianVirtualMemory, addr: u64, n: usize) -> Vec<u8> {
    UserPointer::<[u8]>::from_mem(addr).try_as_ref(mem, n).unwrap()
}

#[test]
fn exit_with_and_without_parent() {
    let mut d = data();
    exit(&mut d, 3);
    assert_eq!(d.state, ProcessState::TERMINATED_NORMALLY_WAITING_TO_BE_DEALLOCATED { exit_code: 3 });
    let mut d = data();
    d.parent_pid = Some(1);
    exit(&mut d, 4);
    assert_eq!(d.state, ProcessState::TERMINATED_NORMALLY_CHILD_WAITING_FOR_PARENT_ACKNOWLEDGEMENT { exit_code: 4 });
}

#[test]
fn lseek_moves_the_cursor() {
    let mut d = with_file(b"hello", O_RDWR, "/f");
    assert_eq!(lseek(&mut d, 3, 2, SEEK_SET), 2);
    assert_eq!(lseek(&mut d, 3, 2, SEEK_CUR), 4);
    assert_eq!(lseek(&mut d, 3, -1, SEEK_CUR), 3);
    assert_eq!(lseek(&mut d, 3, -2, SEEK_END), 3);
    assert_eq!(lseek(&mut d, 3, 1, SEEK_END), 6);
    assert_eq!(d.open_nodes[0].as_ref().unwrap().cursor, 6);
    // an unknown whence, a standard descriptor and a closed one fail
    assert_eq!(lseek(&mut d, 3, 0, 9), -1);
    assert_eq!(lseek(&mut d, 0, 0, SEEK_SET), -1);
    assert_eq!(lseek(&mut d, 8, 0, SEEK_SET), -1);
    assert_eq!(d.open_nodes[0].as_ref().unwrap().cursor, 6);
}

#[test]
fn fchdir_takes_the_path_of_the_node() {
    let mut d = with_file(b"", O_RDONLY, "/bin/sh");
    assert_eq!(fchdir(&mut d, 3), 0);
    assert_eq!(d.cwd.as_str(), "/bin/sh");
    assert_eq!(fchdir(&mut d, 1), -1);
    assert_eq!(fchdir(&mut d, 9), -1);
}

#[test]
fn dup_counts_references() {
    let mut d = with_file(b"x", O_RDONLY, "/f");
    let mut pipes: Vec<Option<ProcessPipe>> = Vec::new();
    assert_eq!(dup(&mut d, &mut pipes, 3), 4);
    assert_eq!(d.fd_mappings[4], Some(FdMapping::Regular(0)));
    assert_eq!(d.open_nodes[0].as_ref().unwrap().reference_count, 2);
    assert_eq!(dup(&mut d, &mut pipes, 1), 5);
    assert_eq!(d.fd_mappings[5], Some(FdMapping::Stdout));
    assert_eq!(dup(&mut d, &mut pipes, 17), -1);
}

#[test]
fn dup2_closes_the_target_first() {
    let mut d = with_file(b"x", O_RDONLY, "/f");
    let mut pipes: Vec<Option<ProcessPipe>> = Vec::new();
    // descriptor 1 now refers to the file
    assert!(dup2_allowed(&d, &pipes, 3, 1));
    assert_eq!(dup2(&mut d, &mut pipes, 3, 1), 1);
    assert_eq!(d.fd_mappings[1], Some(FdMapping::Regular(0)));
    assert_eq!(d.open_nodes[0].as_ref().unwrap().reference_count, 2);
    // a target far past the end is reached through free descriptors
    assert_eq!(dup2(&mut d, &mut pipes, 0, 6), 6);
    assert_eq!(d.fd_mappings.len(), 7);
    assert_eq!(d.fd_mappings[5], None);
    assert_eq!(d.fd_mappings[6], Some(FdMapping::Stdin));
    // the descriptor just past the end cannot be the target
    assert!(!dup2_allowed(&d, &pipes, 0, 7));
    assert_eq!(dup2(&mut d, &mut pipes, 9, 2), -1);
}

#[test]
fn pipe_write_then_read() {
    let mut d = data();
    let mut pipes: Vec<Option<ProcessPipe>> = Vec::new();
    let mut mem = memory_with(0x1000, vec![0xAA; 16]);
    assert_eq!(pipe(&mut mem, &mut d, &mut pipes, 0x1000), 0);
    assert_eq!(bytes_at(&mem, 0x1000, 8), vec![3, 0, 0, 0, 4, 0, 0, 0]);
    assert_eq!(d.fd_mappings[3], Some(FdMapping::PipeReadEnd(0)));
    assert_eq!(d.fd_mappings[4], Some(FdMapping::PipeWriteEnd(0)));
    // unmapped memory fails
    assert_eq!(pipe(&mut mem, &mut d, &mut pipes, 0x9000), -1);

    // write "hi!" from the user buffer into the pipe
    UserPointer::<[u8]>::from_mem(0x1008).try_write(&mut mem, b"hi!").unwrap();
    let mut console = String::new();
    assert_eq!(syscall::write(&mem, &mut d, &mut pipes, 4, 0x1008, 3, &mut console), 3);
    assert_eq!(pipes[0].as_ref().unwrap().buf, b"hi!".to_vec());
    // read two of them back, then the last one
    assert_eq!(read(&mut mem, &mut d, &mut pipes, 3, 0x1000, 2, None), Some(2));
    assert_eq!(bytes_at(&mem, 0x1000, 4), vec![b'h', b'i', 0, 0]);
    assert_eq!(read(&mut mem, &mut d, &mut pipes, 3, 0x1000, 8, None), Some(1));
    assert_eq!(bytes_at(&mem, 0x1000, 2), vec![b'!', b'i']);
    // an empty pipe with a writer makes the reader wait
    assert_eq!(read(&mut mem, &mut d, &mut pipes, 3, 0x1000, 8, None), None);
    assert_eq!(d.state, ProcessState::WAITING_FOR_READ_PIPE { pipe_index: 0 });
}

#[test]
fn read_and_write_files() {
    let mut d = with_file(b"abcdef", O_RDWR, "/f");
    let mut pipes: Vec<Option<ProcessPipe>> = Vec::new();
    let mut mem = memory_with(0x2000, vec![0; 8]);
    assert_eq!(read(&mut mem, &mut d, &mut pipes, 3, 0x2000, 4, None), Some(4));
    assert_eq!(bytes_at(&mem, 0x2000, 4), b"abcd".to_vec());
    // only two bytes are left
    assert_eq!(read(&mut mem, &mut d, &mut pipes, 3, 0x2000, 4, None), Some(2));
    assert_eq!(bytes_at(&mem, 0x2000, 4), b"efcd".to_vec());
    assert_eq!(read(&mut mem, &mut d, &mut pipes, 3, 0x2000, 4, None), Some(0));
    // writing at the end grows the file
    let mut console = String::new();
    assert_eq!(syscall::write(&mem, &mut d, &mut pipes, 3, 0x2000, 3, &mut console), 3);
    assert_eq!(file_bytes(&d, 0), b"abcdefefc".to_vec());
    // a buffer out of memory fails
    assert_eq!(syscall::write(&mem, &mut d, &mut pipes, 3, 0x5000, 3, &mut console), -1);
    assert_eq!(read(&mut mem, &mut d, &mut pipes, 3, 0x2006, 4, None), Some(-1));
}

#[test]
fn write_to_a_file_opened_to_append() {
    let mut d = with_file(b"log:", O_WRONLY | O_APPEND, "/log");
    let mut pipes: Vec<Option<ProcessPipe>> = Vec::new();
    let mem = memory_with(0x3000, b"ok".to_vec());
    let mut console = String::new();
    assert_eq!(syscall::write(&mem, &mut d, &mut pipes, 3, 0x3000, 2, &mut console), 2);
    assert_eq!(file_bytes(&d, 0), b"log:ok".to_vec());
    assert_eq!(d.open_nodes[0].as_ref().unwrap().cursor, 6);
    // the file is not open for reading
    let mut mem = memory_with(0x3000, vec![0; 2]);
    assert_eq!(read(&mut mem, &mut d, &mut pipes, 3, 0x3000, 2, None), Some(-1));
}

#[test]
fn standard_streams() {
    let mut d = data();
    let mut pipes: Vec<Option<ProcessPipe>> = Vec::new();
    let mut mem = memory_with(0x4000, "héllo".as_bytes().to_vec());
    let mut console = String::from(">");
    assert_eq!(syscall::write(&mem, &mut d, &mut pipes, 1, 0x4000, 6, &mut console), 6);
    assert_eq!(console, ">héllo");
    // half a character is no UTF-8
    assert_eq!(syscall::write(&mem, &mut d, &mut pipes, 2, 0x4000, 2, &mut console), -1);
    assert_eq!(console, ">héllo");
    // standard input gives the key typed, or waits for one
    assert_eq!(read(&mut mem, &mut d, &mut pipes, 0, 0x4000, 4, Some(b'z')), Some(1));
    assert_eq!(bytes_at(&mem, 0x4000, 2), vec![b'z', 0xC3]);
    assert_eq!(read(&mut mem, &mut d, &mut pipes, 0, 0x4000, 4, None), None);
    assert_eq!(read(&mut mem, &mut d, &mut pipes, 1, 0x4000, 4, Some(b'z')), Some(-1));
}

#[test]
fn waitpid_waits_then_reports() {
    let mut d = data();
    let mut mem = memory_with(0x5000, vec![0xFF; 8]);
    assert_eq!(waitpid(&mut mem, &mut d, -1, 0x5000, 0), None);
    assert_eq!(d.state, ProcessState::WAITING_FOR_CHILD_PROCESS { cpid: None });
    d.state = ProcessState::RUNNING;
    assert_eq!(waitpid(&mut mem, &mut d, 7, 0x5000, 0), None);
    assert_eq!(d.state, ProcessState::WAITING_FOR_CHILD_PROCESS { cpid: Some(7) });
    d.state = ProcessState::RUNNING;
    assert_eq!(waitpid(&mut mem, &mut d, 0, 0x5000, 0), Some(-1));
    d.state = ProcessState::FINISHED_WAITING_FOR_CHILD_PROCESS(Some(WaitInformation { cpid: 7, exit_code: 0x1_02 }));
    assert_eq!(waitpid(&mut mem, &mut d, 7, 0x5000, 0), Some(7));
    assert_eq!(d.state, ProcessState::RUNNING);
    assert_eq!(bytes_at(&mem, 0x5000, 8), vec![2, 0, 0, 0, 0, 0, 0, 0]);
    d.state = ProcessState::FINISHED_WAITING_FOR_CHILD_PROCESS(None);
    assert_eq!(waitpid(&mut mem, &mut d, 7, 0x5000, 0), Some(-1));
}

#[test]
fn getcwd_stores_the_folder() {
    let mut d = data();
    d.cwd = Path::try_from_str("/usr/bin").unwrap();
    let mut mem = memory_with(0x6000, vec![b'#'; 12]);
    assert_eq!(getcwd(&mut mem, &d, 0x6000, 12), 0x6000);
    assert_eq!(bytes_at(&mem, 0x6000, 12), b"/usr/bin###\0".to_vec());
    // too small a buffer
    assert_eq!(getcwd(&mut mem, &d, 0x6000, 8), 0);
    assert_eq!(getcwd(&mut mem, &d, 0x9000, 12), 0);
}

#[test]
fn decoding_a_call() {
    assert_eq!(decode_syscall(4, 3, 0, 0), Some(SyscallRequest::Close { fd: 3 }));
    assert_eq!(
        decode_syscall(5, 3, (-2i64) as u64, 2),
        Some(SyscallRequest::LSeek { fd: 3, offset: -2, whence: 2 })
    );
    assert_eq!(decode_syscall(14, 0, 0, 0), Some(SyscallRequest::Fork));
    assert_eq!(decode_syscall(19, 0, 0, 0), None);
}

#[test]
fn entry_point_serves_or_hands_out() {
    let mem = memory_with(0x7000, b"yo".to_vec());
    let mut cpu = Riscv64Cpu::from(mem, 0x1000);
    let mut d = data();
    let mut pipes: Vec<Option<ProcessPipe>> = Vec::new();
    let mut console = String::new();
    // write(1, 0x7000, 2)
    cpu.write_reg(17, 2);
    cpu.write_reg(10, 1);
    cpu.write_reg(11, 0x7000);
    cpu.write_reg(12, 2);
    let r = syscall_entry_point(&mut cpu, &mut d, &mut pipes, None, &mut console);
    assert_eq!(r, SyscallOutcome::Served(CpuAction::NONE));
    assert_eq!(cpu.read_reg(10), 2);
    assert_eq!(console, "yo");
    // close(9) fails with -1
    cpu.write_reg(17, 4);
    cpu.write_reg(10, 9);
    let r = syscall_entry_point(&mut cpu, &mut d, &mut pipes, None, &mut console);
    assert_eq!(r, SyscallOutcome::Served(CpuAction::NONE));
    assert_eq!(cpu.read_reg(10), u64::MAX);
    // malloc(16) is handed out
    cpu.write_reg(17, 6);
    cpu.write_reg(10, 16);
    let r = syscall_entry_point(&mut cpu, &mut d, &mut pipes, None, &mut console);
    assert_eq!(r, SyscallOutcome::Outside(SyscallRequest::Malloc { size: 16 }));
    // a read of standard input with no key yet is made again
    cpu.write_reg(17, 1);
    cpu.write_reg(10, 0);
    cpu.write_reg(11, 0x7000);
    cpu.write_reg(12, 1);
    let r = syscall_entry_point(&mut cpu, &mut d, &mut pipes, None, &mut console);
    assert_eq!(r, SyscallOutcome::Served(CpuAction::REPEAT_INSTRUCTION));
    // an unknown number is ignored
    cpu.write_reg(17, 77);
    let r = syscall_entry_point(&mut cpu, &mut d, &mut pipes, None, &mut console);
    assert_eq!(r, SyscallOutcome::Served(CpuAction::NONE));
    assert_eq!(cpu.get_memory().read_u8_ne(0x7000), b'y');
}
