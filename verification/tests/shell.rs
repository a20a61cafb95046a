use ron::kernel::allocator::{BasicAlloc, Layout};
use ron::kernel::hio::{KeyboardKey, KeyboardPacket, KeyboardPacketType};
use ron::kernel::process::{ProcessData, ProcessState};
use ron::kernel::ps2_8042::KeyboardModifiers;
use ron::kernel::scheduler::{Process, Scheduler, TaskRunner, SIGILL};
use ron::kernel::shell::{shell_command, ShellCommand, ShellInput, ShellLine};
use ron::kernel::vfs::Path;
use ron::x86_kernel::multiboot::{booted_by_multiboot, efi_system_table_in_tags};

fn press(key: KeyboardKey) -> KeyboardPacket {
    KeyboardPacket { key, modifiers: KeyboardModifiers::none(), packet_type: KeyboardPacketType::KeyPressed }
}

fn release(key: KeyboardKey) -> KeyboardPacket {
    KeyboardPacket { key, modifiers: KeyboardModifiers::none(), packet_type: KeyboardPacketType::KeyReleased }
}

#[test]
fn typed_line_is_handed_over_trimmed() {
    let mut l = ShellLine::new();
    assert_eq!(l.step(press(KeyboardKey::Space)), ShellInput::Nothing);
    assert_eq!(l.step(press(KeyboardKey::Unmapped { row: 2, column: 8 })), ShellInput::Nothing);
    assert_eq!(l.step(press(KeyboardKey::Unmapped { row: 2, column: 1 })), ShellInput::Nothing);
    assert_eq!(l.step(press(KeyboardKey::Unmapped { row: 2, column: 2 })), ShellInput::Nothing);
    // backspace takes the `d` off again
    assert_eq!(l.step(press(KeyboardKey::Backspace)), ShellInput::Nothing);
    assert_eq!(l.step(press(KeyboardKey::Space)), ShellInput::Nothing);
    assert_eq!(l.len, 4);
    assert_eq!(l.step(press(KeyboardKey::Enter)), ShellInput::Line(b"ls".to_vec()));
    assert_eq!(l.len, 0);
}

#[test]
fn released_keys_and_escape() {
    let mut l = ShellLine::new();
    assert_eq!(l.step(release(KeyboardKey::Unmapped { row: 2, column: 8 })), ShellInput::Nothing);
    assert_eq!(l.len, 0);
    assert_eq!(l.step(press(KeyboardKey::Escape)), ShellInput::Nothing);
    assert_eq!(l.step(release(KeyboardKey::Escape)), ShellInput::Exit);
    // backspace on an empty line does nothing
    assert_eq!(l.step(press(KeyboardKey::Backspace)), ShellInput::Nothing);
    assert_eq!(l.len, 0);
}

#[test]
fn full_line_takes_no_more() {
    let mut l = ShellLine::new();
    for _ in 0..2048 {
        l.step(press(KeyboardKey::Unmapped { row: 1, column: 0 }));
    }
    assert_eq!(l.len, 2048);
    l.step(press(KeyboardKey::Unmapped { row: 1, column: 1 }));
    assert_eq!(l.len, 2048);
    assert_eq!(l.buf[2047], b'q');
}

#[test]
fn command_words() {
    assert_eq!(shell_command(b""), ShellCommand::Empty);
    assert_eq!(shell_command(b"puts hi > /f"), ShellCommand::Puts);
    assert_eq!(shell_command(b"rmrootfsdir x"), ShellCommand::RmRootfsDir);
    assert_eq!(shell_command(b"rm x"), ShellCommand::Rm);
    assert_eq!(shell_command(b"mount.ext2 /dev/hda /mnt"), ShellCommand::MountExt2);
    assert_eq!(shell_command(b"exit"), ShellCommand::Exit);
    assert_eq!(shell_command(b"lsblk"), ShellCommand::Ls);
    assert_eq!(shell_command(b"./hello a b"), ShellCommand::Program);
    assert_eq!(shell_command(b"/bin/sh"), ShellCommand::Program);
}

#[test]
fn multiboot_magic() {
    assert!(booted_by_multiboot(0x2BADB002));
    assert!(!booted_by_multiboot(0x36d76289));
}

#[test]
fn efi_table_from_tags() {
    // a basic tag (4 words with padding), a 64-bit EFI tag, then the end tag
    let tags = [4u32, 12, 7, 0, 0xC, 16, 0x1000, 0x2, 0, 8];
    assert_eq!(efi_system_table_in_tags(&tags, 2), Some(0x2_0000_1000));
    assert_eq!(efi_system_table_in_tags(&tags, 1), Some(0x1000));
    // no EFI tag
    assert_eq!(efi_system_table_in_tags(&[4u32, 8, 0, 8], 2), Some(0));
    // no end tag
    assert_eq!(efi_system_table_in_tags(&[4u32, 8], 2), None);
    // a tag of length 0
    assert_eq!(efi_system_table_in_tags(&[4u32, 0, 0, 8], 2), None);
}

#[test]
fn realloc_moves_and_frees() {
    let mut a = BasicAlloc::from(0x1000, 0x100, false);
    let p = a.allocate(Layout { size: 8, align: 8 });
    assert_eq!(p, 0x1000);
    let (q, copy) = a.realloc(p, Layout { size: 8, align: 8 }, 4);
    assert_eq!(q, 0x1008);
    assert_eq!(copy, 4);
    assert_eq!(a.alloc_count, 1);
    // a layout that cannot be made leaves the allocator as it was
    assert_eq!(a.realloc(q, Layout { size: 4, align: 3 }, 4), (0, 0));
    assert_eq!(a.alloc_count, 1);
    let mut v = BasicAlloc::from(0x1000, 0x100, true);
    let p = v.allocate(Layout { size: 8, align: 8 });
    assert_eq!(v.realloc(p, Layout { size: 8, align: 8 }, 16), (0x1008, 0));
}

#[test]
fn freeing_the_top_gives_back_its_bytes() {
    let mut a = BasicAlloc::from(0x1000, 0x100, false);
    a.allocate(Layout { size: 8, align: 8 });
    let u0 = a.get_heap_used();
    let p = a.allocate(Layout { size: 16, align: 8 });
    assert_eq!(a.get_heap_used(), u0 + 16);
    a.dealloc(p, Layout { size: 16, align: 8 });
    assert_eq!(a.get_heap_used(), u0);
}

struct Runner {
    runs: usize,
    delivered: usize,
}

impl TaskRunner<u32, (), ()> for Runner {
    fn run(&mut self, p: &mut Process<u32, (), ()>, _signals: Vec<usize>, _sched: &mut Scheduler<u32, (), ()>) -> bool {
        self.runs += 1;
        p.emu += 1;
        p.emu < 2
    }

    fn deliver(&mut self, _p: &mut Process<u32, (), ()>, _signals: Vec<usize>) {
        self.delivered += 1;
    }
}

fn proc_with(parent: Option<usize>, state: ProcessState) -> Process<u32, (), ()> {
    let mut d = ProcessData::new(Path::root(), Vec::new(), BasicAlloc::from(0, 0, true));
    d.parent_pid = parent;
    d.state = state;
    Process { emu: 0, data: d }
}

#[test]
fn round_runs_and_reports_remaining_tasks() {
    let mut s: Scheduler<u32, (), ()> = Scheduler::init();
    let mut r = Runner { runs: 0, delivered: 0 };
    assert!(!s.tick_round(&mut r));
    s.new_task(proc_with(None, ProcessState::RUNNING));
    s.new_task(proc_with(None, ProcessState::WAITING_FOR_CHILD_PROCESS { cpid: Some(5) }));
    assert!(s.tick_round(&mut r));
    assert_eq!(s.task_list.len(), 2);
    assert_eq!(r.runs, 1);
    assert_eq!(r.delivered, 1);
    // the processes join the list the last created first; the waiting one
    // has no such child: it stops waiting, with nothing learnt
    assert_eq!(s.task_list[0].as_ref().unwrap().data.state, ProcessState::FINISHED_WAITING_FOR_CHILD_PROCESS(None));
    // both run; the second run of the process at place 1 fails, and the
    // signal goes to the queue of pid 2, place 1 standing for pid 2
    assert!(s.tick_round(&mut r));
    assert_eq!(r.runs, 3);
    assert_eq!(s.signal_queues[1].as_ref().unwrap(), &vec![SIGILL]);
}
