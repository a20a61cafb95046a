//! The scheduler: the list of processes, the pipes between them and their
//! queues of signals, and what one round over the processes decides for each.
//! Running a process's processor is left to the caller: for a process that
//! may run, [`Scheduler::tick_task`] says so and hands over its signals.
use crate::kernel::process::{
    drop_trailing_none, pop_trailing_none, ProcessData, ProcessPipe, ProcessState, WaitInformation,
};
use vstd::prelude::*;

verus! {

/// A process: its processor and what the kernel keeps of it.
pub struct Process<E, F, D> {
    pub emu: E,
    pub data: ProcessData<F, D>,
}

/// What the caller is to do with a process in this round: deliver the
/// signals that were queued for it, and run it where `run` says so.
pub struct TaskAction {
    pub run: bool,
    pub signals: Vec<usize>,
}

/// The processes, by pid - 1, and those created during the current round.
pub struct Scheduler<E, F, D> {
    pub task_list: Vec<Option<Process<E, F, D>>>,
    pub new_task_list: Vec<Option<Process<E, F, D>>>,
    pub number_of_tasks: usize,
    pub pipes: Vec<Option<ProcessPipe>>,
    pub signal_queues: Vec<Option<Vec<usize>>>,
}

/// The signal queued for a process that stopped on an instruction it cannot
/// run (the number POSIX gives `SIGILL`).
pub const SIGILL: usize = 4;

/// What the processes do when they run: the scheduler decides which run and
/// when, the runner runs them.
pub trait TaskRunner<E, F, D> {
    /// Runs process `p` once, after handing it `signals`; `false` where it
    /// stopped on an instruction it cannot run. `sched` is the scheduler
    /// without its list of processes (which is held by the round), for the
    /// process's calls that create processes, queue signals or use pipes.
    fn run(&mut self, p: &mut Process<E, F, D>, signals: Vec<usize>, sched: &mut Scheduler<E, F, D>) -> bool;

    /// Hands `signals` to `p`, a process that does not run this round.
    fn deliver(&mut self, p: &mut Process<E, F, D>, signals: Vec<usize>);
}

/// Whether the state is one in which the process runs.
pub open spec fn is_running(s: ProcessState) -> bool {
    match s {
        ProcessState::RUNNING => true,
        ProcessState::RUNNING_NEW_CHILD_JUST_FORKED => true,
        ProcessState::FINISHED_WAITING_FOR_CHILD_PROCESS(_) => true,
        _ => false,
    }
}

/// The process at place `i` of `list`, where there is one.
pub open spec fn task_at<E, F, D>(list: Seq<Option<Process<E, F, D>>>, i: int) -> Option<Process<E, F, D>> {
    if 0 <= i < list.len() {
        list[i]
    } else {
        None
    }
}

/// Whether the process at place `j` is a child of process `pid`.
pub open spec fn is_child_of<E, F, D>(list: Seq<Option<Process<E, F, D>>>, j: int, pid: usize) -> bool {
    task_at(list, j) matches Some(p) && p.data.parent_pid == Some(pid)
}

/// Whether the process at place `j` has ended and waits for its parent.
pub open spec fn is_zombie<E, F, D>(list: Seq<Option<Process<E, F, D>>>, j: int) -> bool {
    task_at(list, j) matches Some(p) && p.data.state matches ProcessState::TERMINATED_NORMALLY_CHILD_WAITING_FOR_PARENT_ACKNOWLEDGEMENT { .. }
}

impl<E, F, D> Scheduler<E, F, D> {
    /// A scheduler with no processes, pipes or signals.
    pub fn init() -> (r: Self)
        ensures
            r.task_list@.len() == 0,
            r.new_task_list@.len() == 0,
            r.number_of_tasks == 0,
            r.pipes@.len() == 0,
            r.signal_queues@.len() == 0,
    {
        Scheduler {
            task_list: Vec::new(),
            new_task_list: Vec::new(),
            number_of_tasks: 0,
            pipes: Vec::new(),
            signal_queues: Vec::new(),
        }
    }

    /// Adds `process` as a new process, with an empty signal queue; its pid,
    /// one more than the number of processes.
    pub fn new_task(&mut self, process: Process<E, F, D>) -> (r: usize)
        requires
            old(self).number_of_tasks < usize::MAX,
        ensures
            r == old(self).number_of_tasks + 1,
            final(self).number_of_tasks == r,
            final(self).new_task_list@.len() == old(self).new_task_list@.len() + 1,
            final(self).new_task_list@.last() matches Some(p) && p.data.pid == Some(r) && p.emu == process.emu,
            final(self).signal_queues@.len() == old(self).signal_queues@.len() + 1,
            final(self).signal_queues@.drop_last() == old(self).signal_queues@,
            final(self).signal_queues@.last() matches Some(q) && q@.len() == 0,
            final(self).task_list@ == old(self).task_list@,
            final(self).pipes@ == old(self).pipes@,
    {
        let mut process = process;
        let new_pid = self.number_of_tasks + 1;
        process.data.pid = Some(new_pid);
        self.new_task_list.push(Some(process));
        self.signal_queues.push(Some(Vec::new()));
        self.number_of_tasks = self.number_of_tasks + 1;
        new_pid
    }

    /// Moves the processes created during the round into the list, the last
    /// created first, and counts the processes.
    pub fn move_new_tasks_into_list(&mut self)
        ensures
            final(self).new_task_list@.len() == 0,
            final(self).task_list@ == old(self).task_list@ + old(self).new_task_list@.reverse(),
            final(self).number_of_tasks == final(self).task_list@.len(),
            final(self).pipes@ == old(self).pipes@,
            final(self).signal_queues@ == old(self).signal_queues@,
    {
        loop
            invariant
                self.task_list@ + self.new_task_list@.reverse() == old(self).task_list@
                    + old(self).new_task_list@.reverse(),
                self.pipes@ == old(self).pipes@,
                self.signal_queues@ == old(self).signal_queues@,
            ensures
                self.new_task_list@.len() == 0,
                self.task_list@ == old(self).task_list@ + old(self).new_task_list@.reverse(),
                self.pipes@ == old(self).pipes@,
                self.signal_queues@ == old(self).signal_queues@,
            decreases self.new_task_list@.len(),
        {
            let ghost before_t = self.task_list@;
            let ghost before_n = self.new_task_list@;
            match self.new_task_list.pop() {
                Some(p) => {
                    self.task_list.push(p);
                    proof {
                        assert(before_n.reverse() =~= seq![p] + self.new_task_list@.reverse());
                        assert(self.task_list@ + self.new_task_list@.reverse() =~= before_t + before_n.reverse());
                    }
                },
                None => {
                    assert(before_n.reverse() =~= Seq::<Option<Process<E, F, D>>>::empty());
                    assert(self.task_list@ =~= self.task_list@ + self.new_task_list@.reverse());
                    break;
                },
            }
        }
        self.number_of_tasks = self.task_list.len();
    }

    /// Queues `signal` for process `pid`, to be handed over the next time it
    /// runs; `None` where there is no such process.
    pub fn kill_task(&mut self, pid: usize, signal: usize) -> (r: Option<()>)
        ensures
            final(self).task_list@ == old(self).task_list@,
            final(self).pipes@ == old(self).pipes@,
            final(self).signal_queues@.len() == old(self).signal_queues@.len(),
            (pid >= 1 && pid - 1 < old(self).signal_queues@.len() && old(self).signal_queues@[pid - 1] is Some)
                == r is Some,
            r is None ==> final(self).signal_queues@ == old(self).signal_queues@,
            r is Some ==> (final(self).signal_queues@[pid - 1] matches Some(q) && q@ == old(self).signal_queues@[pid
                - 1]->0@.push(signal)),
            forall|k: int| 0 <= k < old(self).signal_queues@.len() && k != pid - 1 ==> #[trigger] final(self).signal_queues@[k] == old(self).signal_queues@[k],
    {
        if pid == 0 || pid - 1 >= self.signal_queues.len() {
            return None;
        }
        let mut slot: Option<Vec<usize>> = None;
        std::mem::swap(&mut slot, &mut self.signal_queues[pid - 1]);
        match slot {
            Some(q) => {
                let mut q = q;
                q.push(signal);
                self.signal_queues.set(pid - 1, Some(q));
                Some(())
            },
            None => {
                self.signal_queues.set(pid - 1, None);
                None
            },
        }
    }
}

/// Whether pipe `k` exists and has bytes to read or no writer left.
pub open spec fn pipe_ready(pipes: Seq<Option<ProcessPipe>>, k: usize) -> bool {
    &&& k < pipes.len()
    &&& pipes[k as int] matches Some(pipe) && (pipe.buf@.len() > 0 || pipe.writers_count == 0)
}

/// Whether there is a process at the place that `parent_pid` names.
pub open spec fn parent_present<E, F, D>(list: Seq<Option<Process<E, F, D>>>, parent_pid: Option<usize>) -> bool {
    parent_pid matches Some(pp) && task_at(list, pp as int) is Some
}

/// `p` with its state set to `state`.
pub open spec fn with_state<E, F, D>(p: Process<E, F, D>, state: ProcessState) -> Process<E, F, D> {
    Process { data: ProcessData { state, ..p.data }, ..p }
}

/// What checking on the process at place `i`, which waits for its child
/// `cpid` (or for any child), makes of the processes `old_list`: where that
/// child has ended, the child is to be freed and the process learns its exit
/// code; where it has no such child, it learns nothing; else it goes on
/// waiting.
pub open spec fn waited<E, F, D>(
    old_list: Seq<Option<Process<E, F, D>>>,
    list: Seq<Option<Process<E, F, D>>>,
    i: int,
    cpid: Option<usize>,
) -> bool {
    let our = (i + 1) as usize;
    match cpid {
        Some(c) => {
            let j = c - 1;
            if c >= 1 && is_child_of(old_list, j, our) {
                if is_zombie(old_list, j) {
                    let child = old_list[j]->0;
                    let exit_code = child.data.state->TERMINATED_NORMALLY_CHILD_WAITING_FOR_PARENT_ACKNOWLEDGEMENT_exit_code;
                    &&& list[j] == Some(with_state(child, ProcessState::TERMINATED_NORMALLY_WAITING_TO_BE_DEALLOCATED { exit_code }))
                    &&& list[i]->0.data.state matches ProcessState::FINISHED_WAITING_FOR_CHILD_PROCESS(Some(info))
                        && info.exit_code == exit_code
                } else {
                    list == old_list
                }
            } else {
                list == old_list.update(i, Some(with_state(old_list[i]->0, ProcessState::FINISHED_WAITING_FOR_CHILD_PROCESS(None))))
            }
        },
        None => {
            &&& (forall|j: int| 0 <= j < old_list.len() ==> !#[trigger] is_child_of(old_list, j, our)) ==> list
                == old_list.update(i, Some(with_state(old_list[i]->0, ProcessState::FINISHED_WAITING_FOR_CHILD_PROCESS(None))))
            &&& (exists|j: int| 0 <= j < old_list.len() && #[trigger] is_child_of(old_list, j, our) && is_zombie(old_list, j))
                ==> (list[i]->0.data.state matches ProcessState::FINISHED_WAITING_FOR_CHILD_PROCESS(Some(_)))
            &&& (exists|j: int| 0 <= j < old_list.len() && #[trigger] is_child_of(old_list, j, our)) && (forall|j: int| 0 <= j < old_list.len() && #[trigger] is_child_of(old_list, j, our) ==> !is_zombie(old_list, j))
                ==> list == old_list
        },
    }
}

impl<E, F, D> Scheduler<E, F, D> {
    /// Sets the state of the process at place `i`, which exists.
    fn set_state(&mut self, i: usize, state: ProcessState)
        requires
            i < old(self).task_list@.len(),
            old(self).task_list@[i as int] is Some,
        ensures
            final(self).task_list@ == old(self).task_list@.update(
                i as int,
                Some(with_state(old(self).task_list@[i as int]->0, state)),
            ),
            final(self).new_task_list@ == old(self).new_task_list@,
            final(self).number_of_tasks == old(self).number_of_tasks,
            final(self).pipes@ == old(self).pipes@,
            final(self).signal_queues@ == old(self).signal_queues@,
    {
        let mut slot: Option<Process<E, F, D>> = None;
        std::mem::swap(&mut slot, &mut self.task_list[i]);
        match slot {
            Some(p) => {
                let Process { emu, data } = p;
                self.task_list.set(i, Some(Process { emu, data: ProcessData { state, ..data } }));
            },
            None => {},
        }
    }

    /// For the process at place `i`, which waits for its child `cpid` (or for
    /// any child): where that child has ended, the child is to be freed and
    /// the process learns its exit code; where it has no such child, it
    /// learns nothing; else it goes on waiting.
    pub fn wait_for_child(&mut self, i: usize, cpid: Option<usize>)
        requires
            i < old(self).task_list@.len(),
            old(self).task_list@[i as int] is Some,
            old(self).task_list@[i as int]->0.data.state matches ProcessState::WAITING_FOR_CHILD_PROCESS { .. },
            i + 1 <= usize::MAX,
        ensures
            final(self).task_list@.len() == old(self).task_list@.len(),
            final(self).new_task_list@ == old(self).new_task_list@,
            final(self).pipes@ == old(self).pipes@,
            final(self).signal_queues@ == old(self).signal_queues@,
            waited(old(self).task_list@, final(self).task_list@, i as int, cpid),
    {
        let our_pid = i + 1;
        let mut state_change_of_child: Option<WaitInformation> = None;
        let mut waiting_is_invalid = false;
        let ghost old_list = self.task_list@;
        match cpid {
            Some(c) => {
                if c >= 1 && c - 1 < self.task_list.len() {
                    let j = c - 1;
                    let mut child_info: Option<(Option<usize>, ProcessState, Option<usize>)> = None;
                    match &self.task_list[j] {
                        Some(child) => {
                            child_info = Some((child.data.parent_pid, child.data.state, child.data.pid));
                        },
                        None => {},
                    }
                    match child_info {
                        Some((parent, state, pid)) => {
                            if parent == Some(our_pid) {
                                match state {
                                    ProcessState::TERMINATED_NORMALLY_CHILD_WAITING_FOR_PARENT_ACKNOWLEDGEMENT { exit_code } => {
                                        let child_pid = match pid {
                                            Some(p) => p,
                                            None => c,
                                        };
                                        state_change_of_child = Some(WaitInformation { cpid: child_pid, exit_code });
                                        self.set_state(j, ProcessState::TERMINATED_NORMALLY_WAITING_TO_BE_DEALLOCATED { exit_code });
                                    },
                                    _ => {},
                                }
                            } else {
                                waiting_is_invalid = true;
                            }
                        },
                        None => {
                            waiting_is_invalid = true;
                        },
                    }
                } else {
                    waiting_is_invalid = true;
                }
            },
            None => {
                waiting_is_invalid = true;
                let n = self.task_list.len();
                let mut j: usize = 0;
                while j < n
                    invariant_except_break
                        state_change_of_child is None,
                        self.task_list@ == old_list,
                        waiting_is_invalid == (forall|k: int| 0 <= k < j ==> !#[trigger] is_child_of(old_list, k, our_pid)),
                    invariant
                        n == old_list.len(),
                        j <= n,
                        i < n,
                        our_pid == i + 1,
                        self.task_list@.len() == n,
                        self.new_task_list@ == old(self).new_task_list@,
                        self.pipes@ == old(self).pipes@,
                        self.signal_queues@ == old(self).signal_queues@,
                        old_list == old(self).task_list@,
                        self.task_list@[i as int] is Some,
                        forall|k: int| 0 <= k < j && #[trigger] is_child_of(old_list, k, our_pid) ==> !is_zombie(old_list, k),
                    ensures
                        self.task_list@.len() == n,
                        self.new_task_list@ == old(self).new_task_list@,
                        self.pipes@ == old(self).pipes@,
                        self.signal_queues@ == old(self).signal_queues@,
                        state_change_of_child is None ==> self.task_list@ == old_list,
                        state_change_of_child is None ==> waiting_is_invalid == (forall|k: int| 0 <= k < n ==> !#[trigger] is_child_of(old_list, k, our_pid)),
                        state_change_of_child is None ==> forall|k: int| 0 <= k < n && #[trigger] is_child_of(old_list, k, our_pid) ==> !is_zombie(old_list, k),
                        self.task_list@[i as int] is Some,
                        state_change_of_child is Some ==> !waiting_is_invalid,
                        state_change_of_child is Some ==> exists|k: int| 0 <= k < n && #[trigger] is_child_of(old_list, k, our_pid) && is_zombie(old_list, k),
                    decreases n - j,
                {
                    let mut child_info: Option<(Option<usize>, ProcessState, Option<usize>)> = None;
                    match &self.task_list[j] {
                        Some(child) => {
                            child_info = Some((child.data.parent_pid, child.data.state, child.data.pid));
                        },
                        None => {},
                    }
                    match child_info {
                        Some((parent, state, pid)) => {
                            if parent == Some(our_pid) {
                                assert(is_child_of(old_list, j as int, our_pid));
                                waiting_is_invalid = false;
                                match state {
                                    ProcessState::TERMINATED_NORMALLY_CHILD_WAITING_FOR_PARENT_ACKNOWLEDGEMENT { exit_code } => {
                                        let child_pid = match pid {
                                            Some(p) => p,
                                            None => j + 1,
                                        };
                                        state_change_of_child = Some(WaitInformation { cpid: child_pid, exit_code });
                                        assert(is_zombie(old_list, j as int));
                                        self.set_state(j, ProcessState::TERMINATED_NORMALLY_WAITING_TO_BE_DEALLOCATED { exit_code });
                                        break;
                                    },
                                    _ => {
                                        assert(!is_zombie(old_list, j as int));
                                    },
                                }
                            } else {
                                assert(!is_child_of(old_list, j as int, our_pid));
                            }
                        },
                        None => {
                            assert(!is_child_of(old_list, j as int, our_pid));
                        },
                    }
                    j = j + 1;
                }
            },
        }
        let ghost mid = self.task_list@;
        match state_change_of_child {
            Some(info) => {
                self.set_state(i, ProcessState::FINISHED_WAITING_FOR_CHILD_PROCESS(Some(info)));
            },
            None => {
                if waiting_is_invalid {
                    self.set_state(i, ProcessState::FINISHED_WAITING_FOR_CHILD_PROCESS(None));
                }
            },
        }
        proof {
            assert(our_pid == (i + 1) as usize);
            if cpid is None {
                if state_change_of_child is None {
                    assert(mid =~= old_list);
                    if waiting_is_invalid {
                        assert(self.task_list@ =~= old_list.update(i as int, Some(with_state(old_list[i as int]->0, ProcessState::FINISHED_WAITING_FOR_CHILD_PROCESS(None)))));
                    } else {
                        assert(self.task_list@ =~= old_list);
                    }
                }
            }
        }
    }
}

impl<E, F, D> Scheduler<E, F, D> {
    /// Takes the signals queued for place `i`, leaving its queue empty.
    fn take_signals(&mut self, i: usize) -> (r: Vec<usize>)
        ensures
            final(self).task_list@ == old(self).task_list@,
            final(self).new_task_list@ == old(self).new_task_list@,
            final(self).pipes@ == old(self).pipes@,
            final(self).signal_queues@.len() == old(self).signal_queues@.len(),
            i < old(self).signal_queues@.len() && old(self).signal_queues@[i as int] is Some ==> r@ == old(
                self,
            ).signal_queues@[i as int]->0@ && (final(self).signal_queues@[i as int] matches Some(q) && q@.len()
                == 0),
            !(i < old(self).signal_queues@.len() && old(self).signal_queues@[i as int] is Some) ==> r@.len() == 0
                && final(self).signal_queues@ == old(self).signal_queues@,
            forall|k: int| 0 <= k < old(self).signal_queues@.len() && k != i ==> #[trigger] final(self).signal_queues@[k]
                == old(self).signal_queues@[k],
    {
        if i >= self.signal_queues.len() {
            return Vec::new();
        }
        let mut slot: Option<Vec<usize>> = None;
        std::mem::swap(&mut slot, &mut self.signal_queues[i]);
        match slot {
            Some(q) => {
                self.signal_queues.set(i, Some(Vec::new()));
                q
            },
            None => Vec::new(),
        }
    }

    /// One round's decision for the process at place `i`. Its queued signals
    /// are taken and handed over. A process that may run is to be run. One
    /// that waits for a child is checked (see [`Scheduler::wait_for_child`]);
    /// one that waits for a pipe runs again once the pipe has bytes or no
    /// writer. One that has ended goes on to be freed once no process is at
    /// the place its parent's pid names. One to be freed leaves the list, and
    /// its signal queue goes; then the trailing free places of both go.
    pub fn tick_task(&mut self, i: usize) -> (r: TaskAction)
        requires
            i < usize::MAX,
        ensures
            final(self).new_task_list@ == old(self).new_task_list@,
            final(self).pipes@ == old(self).pipes@,
            r.run == (task_at(old(self).task_list@, i as int) matches Some(p) && is_running(p.data.state)),
            task_at(old(self).task_list@, i as int) is None ==> !r.run && r.signals@.len() == 0
                && final(self).task_list@ == old(self).task_list@,
            r.run ==> final(self).task_list@ == old(self).task_list@,
            i < old(self).signal_queues@.len() && old(self).signal_queues@[i as int] is Some && old(self).task_list@.len() > i
                && old(self).task_list@[i as int] is Some ==> r.signals@ == old(self).signal_queues@[i as int]->0@,
            match task_at(old(self).task_list@, i as int) {
                Some(p) => match p.data.state {
                    ProcessState::WAITING_FOR_CHILD_PROCESS { cpid } => waited(
                        old(self).task_list@,
                        final(self).task_list@,
                        i as int,
                        cpid,
                    ),
                    ProcessState::WAITING_FOR_READ_PIPE { pipe_index } => pipe_ready(old(self).pipes@, pipe_index)
                        ==> final(self).task_list@ == old(self).task_list@.update(
                        i as int,
                        Some(with_state(p, ProcessState::RUNNING)),
                    ),
                    ProcessState::TERMINATED_NORMALLY_CHILD_WAITING_FOR_PARENT_ACKNOWLEDGEMENT { exit_code } => !parent_present(
                        old(self).task_list@,
                        p.data.parent_pid,
                    ) ==> final(self).task_list@ == old(self).task_list@.update(
                        i as int,
                        Some(with_state(p, ProcessState::TERMINATED_NORMALLY_WAITING_TO_BE_DEALLOCATED { exit_code })),
                    ),
                    ProcessState::TERMINATED_DUE_TO_ILLEGAL_INSTRUCTION_CHILD_WAITING_FOR_PARENT_ACKNOWLEDGEMENT => !parent_present(
                        old(self).task_list@,
                        p.data.parent_pid,
                    ) ==> final(self).task_list@ == old(self).task_list@.update(
                        i as int,
                        Some(with_state(p, ProcessState::TERMINATED_DUE_TO_ILLEGAL_INSTRUCTION_WAITING_TO_BE_DEALLOCATED)),
                    ),
                    ProcessState::TERMINATED_NORMALLY_WAITING_TO_BE_DEALLOCATED { .. } => final(self).task_list@
                        == drop_trailing_none(old(self).task_list@.update(i as int, None)),
                    ProcessState::TERMINATED_DUE_TO_ILLEGAL_INSTRUCTION_WAITING_TO_BE_DEALLOCATED => final(self).task_list@
                        == drop_trailing_none(old(self).task_list@.update(i as int, None)),
                    _ => true,
                },
                None => true,
            },
    {
        if i >= self.task_list.len() {
            return TaskAction { run: false, signals: Vec::new() };
        }
        let mut info: Option<(ProcessState, Option<usize>)> = None;
        match &self.task_list[i] {
            Some(p) => {
                info = Some((p.data.state, p.data.parent_pid));
            },
            None => {},
        }
        let (state, parent_pid) = match info {
            Some(x) => x,
            None => {
                return TaskAction { run: false, signals: Vec::new() };
            },
        };
        let signals = self.take_signals(i);
        match state {
            ProcessState::RUNNING | ProcessState::RUNNING_NEW_CHILD_JUST_FORKED
            | ProcessState::FINISHED_WAITING_FOR_CHILD_PROCESS(_) => {
                return TaskAction { run: true, signals };
            },
            ProcessState::WAITING_FOR_CHILD_PROCESS { cpid } => {
                self.wait_for_child(i, cpid);
            },
            ProcessState::WAITING_FOR_READ_PIPE { pipe_index } => {
                if pipe_index < self.pipes.len() {
                    let mut ready = false;
                    match &self.pipes[pipe_index] {
                        Some(pipe) => {
                            ready = pipe.buf.len() > 0 || pipe.writers_count == 0;
                        },
                        None => {},
                    }
                    if ready {
                        self.set_state(i, ProcessState::RUNNING);
                    }
                }
            },
            ProcessState::TERMINATED_NORMALLY_CHILD_WAITING_FOR_PARENT_ACKNOWLEDGEMENT { exit_code } => {
                if !self.parent_exists(parent_pid) {
                    self.set_state(i, ProcessState::TERMINATED_NORMALLY_WAITING_TO_BE_DEALLOCATED { exit_code });
                }
            },
            ProcessState::TERMINATED_DUE_TO_ILLEGAL_INSTRUCTION_CHILD_WAITING_FOR_PARENT_ACKNOWLEDGEMENT => {
                if !self.parent_exists(parent_pid) {
                    self.set_state(i, ProcessState::TERMINATED_DUE_TO_ILLEGAL_INSTRUCTION_WAITING_TO_BE_DEALLOCATED);
                }
            },
            ProcessState::TERMINATED_NORMALLY_WAITING_TO_BE_DEALLOCATED { .. }
            | ProcessState::TERMINATED_DUE_TO_ILLEGAL_INSTRUCTION_WAITING_TO_BE_DEALLOCATED => {
                self.task_list.set(i, None);
                pop_trailing_none(&mut self.task_list);
                if i < self.signal_queues.len() {
                    self.signal_queues.set(i, None);
                }
                pop_trailing_none(&mut self.signal_queues);
            },
        }
        TaskAction { run: false, signals }
    }

    /// One round over the processes: those created since the last round join
    /// the list, then each place of the list is handled in turn by
    /// [`Scheduler::tick_task`]. A process that is to run is run by `runner`,
    /// which may create processes; they join the list at once. A process that
    /// stopped on an instruction it cannot run is sent [`SIGILL`]. Whether
    /// processes remain after the round.
    pub fn tick_round<R: TaskRunner<E, F, D>>(&mut self, runner: &mut R) -> (r: bool)
        ensures
            r == (final(self).task_list@.len() > 0),
            final(self).new_task_list@.len() == 0,
            old(self).task_list@.len() + old(self).new_task_list@.len() == 0 ==> final(self).task_list@.len() == 0
                && !r,
    {
        self.move_new_tasks_into_list();
        let n = self.task_list.len();
        let mut i: usize = 0;
        while i < n
            invariant
                i <= n,
                self.new_task_list@.len() == 0,
                n == 0 ==> self.task_list@.len() == 0,
            decreases n - i,
        {
            let action = self.tick_task(i);
            if i < self.task_list.len() {
                let mut slot: Option<Process<E, F, D>> = None;
                std::mem::swap(&mut slot, &mut self.task_list[i]);
                match slot {
                    Some(p) => {
                        let mut p = p;
                        if action.run {
                            let mut list: Vec<Option<Process<E, F, D>>> = Vec::new();
                            std::mem::swap(&mut list, &mut self.task_list);
                            let ok = runner.run(&mut p, action.signals, self);
                            self.task_list = list;
                            if i < self.task_list.len() {
                                self.task_list.set(i, Some(p));
                            }
                            if !ok {
                                let _ = self.kill_task(i + 1, SIGILL);
                            }
                            self.move_new_tasks_into_list();
                        } else {
                            runner.deliver(&mut p, action.signals);
                            self.task_list.set(i, Some(p));
                        }
                    },
                    None => {
                        self.task_list.set(i, None);
                    },
                }
            }
            i = i + 1;
        }
        self.task_list.len() > 0
    }

    /// Whether there is a process at the place that `parent_pid` names.
    fn parent_exists(&self, parent_pid: Option<usize>) -> (r: bool)
        ensures
            r == parent_present(self.task_list@, parent_pid),
    {
        match parent_pid {
            Some(pp) => pp < self.task_list.len() && self.task_list[pp].is_some(),
            None => false,
        }
    }
}

} // verus!
