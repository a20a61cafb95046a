use ron::kernel::allocator::BasicAlloc;
use ron::kernel::process::{close, FdMapping, ProcessData, ProcessPipe, ProcessState, WaitInformation};
use ron::kernel::scheduler::{Process, Scheduler};
use ron::kernel::vfs::Path;

fn data() -> ProcessData<(), ()> {
    ProcessData::new(Path::root(), Vec::new(), BasicAlloc::from(0, 0, true))
}

fn proc_with(parent: Option<usize>, state: ProcessState) -> Process<u32, (), ()> {
    let mut d = data();
    d.parent_pid = parent;
    d.state = state;
    Process { emu: 0, data: d }
}

#[test]
fn new_process_has_standard_descriptors() {
    let d = data();
    assert_eq!(d.fd_mappings, vec![Some(FdMapping::Stdin), Some(FdMapping::Stdout), Some(FdMapping::Stderr)]);
    assert_eq!(d.state, ProcessState::RUNNING);
    assert!(d.pid.is_none());
}

#[test]
fn close_standard_descriptor_and_trailing_entries() {
    let mut d = data();
    let mut pipes: Vec<Option<ProcessPipe>> = Vec::new();
    assert_eq!(close(&mut d, &mut pipes, 1), 0);
    assert_eq!(d.fd_mappings, vec![Some(FdMapping::Stdin), None, Some(FdMapping::Stderr)]);
    assert_eq!(close(&mut d, &mut pipes, 2), 0);
    // the trailing free descriptors go
    assert_eq!(d.fd_mappings, vec![Some(FdMapping::Stdin)]);
    assert_eq!(close(&mut d, &mut pipes, 1), -1);
    assert_eq!(close(&mut d, &mut pipes, 7), -1);
}

#[test]
fn close_pipe_ends() {
    let mut d = data();
    let mut pipes = vec![Some(ProcessPipe { buf: Vec::new(), readers_count: 1, writers_count: 1 })];
    d.fd_mappings.push(Some(FdMapping::PipeReadEnd(0)));
    d.fd_mappings.push(Some(FdMapping::PipeWriteEnd(0)));
    assert_eq!(close(&mut d, &mut pipes, 3), 0);
    assert_eq!(pipes[0].as_ref().unwrap().readers_count, 0);
    assert_eq!(close(&mut d, &mut pipes, 4), 0);
    // no reader and no writer left: the pipe goes
    assert!(pipes.is_empty());
}

#[test]
fn pids_count_up_and_new_tasks_join_the_list() {
    let mut s: Scheduler<u32, (), ()> = Scheduler::init();
    assert_eq!(s.new_task(proc_with(None, ProcessState::RUNNING)), 1);
    assert_eq!(s.new_task(proc_with(None, ProcessState::RUNNING)), 2);
    s.move_new_tasks_into_list();
    assert_eq!(s.task_list.len(), 2);
    assert_eq!(s.number_of_tasks, 2);
    // the last created comes first
    assert_eq!(s.task_list[0].as_ref().unwrap().data.pid, Some(2));
}

#[test]
fn signals_are_handed_to_the_running_process() {
    let mut s: Scheduler<u32, (), ()> = Scheduler::init();
    s.new_task(proc_with(None, ProcessState::RUNNING));
    s.move_new_tasks_into_list();
    assert_eq!(s.kill_task(1, 9), Some(()));
    assert_eq!(s.kill_task(1, 4), Some(()));
    assert_eq!(s.kill_task(2, 9), None);
    assert_eq!(s.kill_task(0, 9), None);
    let a = s.tick_task(0);
    assert!(a.run);
    assert_eq!(a.signals, vec![9, 4]);
    let b = s.tick_task(0);
    assert!(b.signals.is_empty());
}

#[test]
fn waiting_parent_learns_exit_code_and_child_is_freed() {
    let mut s: Scheduler<u32, (), ()> = Scheduler::init();
    s.task_list.push(Some(proc_with(None, ProcessState::WAITING_FOR_CHILD_PROCESS { cpid: Some(2) })));
    s.task_list.push(Some(proc_with(
        Some(1),
        ProcessState::TERMINATED_NORMALLY_CHILD_WAITING_FOR_PARENT_ACKNOWLEDGEMENT { exit_code: 3 },
    )));
    s.task_list[1].as_mut().unwrap().data.pid = Some(2);
    s.signal_queues.push(Some(Vec::new()));
    s.signal_queues.push(Some(Vec::new()));
    let a = s.tick_task(0);
    assert!(!a.run);
    assert_eq!(
        s.task_list[0].as_ref().unwrap().data.state,
        ProcessState::FINISHED_WAITING_FOR_CHILD_PROCESS(Some(WaitInformation { cpid: 2, exit_code: 3 }))
    );
    assert_eq!(
        s.task_list[1].as_ref().unwrap().data.state,
        ProcessState::TERMINATED_NORMALLY_WAITING_TO_BE_DEALLOCATED { exit_code: 3 }
    );
    s.tick_task(1);
    assert_eq!(s.task_list.len(), 1);
    assert_eq!(s.signal_queues.len(), 1);
    assert!(s.tick_task(0).run);
}

#[test]
fn waiting_without_children_is_answered_with_nothing() {
    let mut s: Scheduler<u32, (), ()> = Scheduler::init();
    s.task_list.push(Some(proc_with(None, ProcessState::WAITING_FOR_CHILD_PROCESS { cpid: None })));
    s.tick_task(0);
    assert_eq!(s.task_list[0].as_ref().unwrap().data.state, ProcessState::FINISHED_WAITING_FOR_CHILD_PROCESS(None));
}

#[test]
fn reader_wakes_when_the_pipe_has_bytes() {
    let mut s: Scheduler<u32, (), ()> = Scheduler::init();
    s.pipes.push(Some(ProcessPipe { buf: Vec::new(), readers_count: 1, writers_count: 1 }));
    s.task_list.push(Some(proc_with(None, ProcessState::WAITING_FOR_READ_PIPE { pipe_index: 0 })));
    s.tick_task(0);
    assert_eq!(s.task_list[0].as_ref().unwrap().data.state, ProcessState::WAITING_FOR_READ_PIPE { pipe_index: 0 });
    s.pipes[0].as_mut().unwrap().buf.push(1);
    s.tick_task(0);
    assert_eq!(s.task_list[0].as_ref().unwrap().data.state, ProcessState::RUNNING);
}

#[test]
fn orphaned_child_goes_on_to_be_freed() {
    let mut s: Scheduler<u32, (), ()> = Scheduler::init();
    s.task_list.push(Some(proc_with(
        Some(5),
        ProcessState::TERMINATED_NORMALLY_CHILD_WAITING_FOR_PARENT_ACKNOWLEDGEMENT { exit_code: 1 },
    )));
    s.tick_task(0);
    assert_eq!(
        s.task_list[0].as_ref().unwrap().data.state,
        ProcessState::TERMINATED_NORMALLY_WAITING_TO_BE_DEALLOCATED { exit_code: 1 }
    );
    s.tick_task(0);
    assert!(s.task_list.is_empty());
}
