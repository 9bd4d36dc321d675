//! Processes: what the kernel keeps of each of them, which of them runs, and which of them wait
//! for their turn.
use crate::memory::{MemorySet, MemoryView, VirtAddr};
use crate::processes;
use crate::processes::{KernelView, TaskStatus, TaskView, INITPROC};
use crate::seqs;
use vstd::prelude::*;

verus! {

/// The registers with which a process goes on when it returns to user mode.
#[derive(Clone, Copy)]
pub struct TrapContext {
    pub x: [usize; 32],
    pub sepc: usize,
}

/// A program that has been loaded: its address space, its stack pointer and its entry point.
pub struct UserProgram {
    pub memory_set: MemorySet,
    pub user_sp: usize,
    pub entry_point: usize,
}

/// What the kernel keeps of a process.
pub struct TaskControlBlock {
    task_status: TaskStatus,
    exit_code: i32,
    memory_set: MemorySet,
    trap_cx: TrapContext,
    heap_bottom: usize,
    program_brk: usize,
    parent: Option<usize>,
    children: Vec<usize>,
}

impl View for TaskControlBlock {
    type V = TaskView;

    closed spec fn view(&self) -> TaskView {
        TaskView {
            status: self.task_status,
            exit_code: self.exit_code,
            memory: self.memory_set@,
            x: self.trap_cx.x@,
            sepc: self.trap_cx.sepc,
            heap_bottom: self.heap_bottom,
            program_brk: self.program_brk,
            parent: self.parent,
            children: self.children@,
        }
    }
}

impl TaskControlBlock {
    closed spec fn wf(&self) -> bool {
        self.memory_set.wf()
    }

    /// The registers of a process that has not run.
    fn app_init_context(entry: usize, user_sp: usize) -> (cx: TrapContext)
        ensures
            cx.x@ == processes::initial_registers(user_sp),
            cx.sepc == entry,
    {
        let mut x: [usize; 32] = [0usize; 32];
        x[2] = user_sp;
        assert(x@ =~= processes::initial_registers(user_sp));
        TrapContext { x, sepc: entry }
    }

    /// A process that has not run, with a program to run.
    fn new(program: UserProgram) -> (task: Self)
        requires
            program.memory_set.wf(),
        ensures
            task.wf(),
            task@.status == TaskStatus::Ready,
            task@.exit_code == 0,
            task@.memory == program.memory_set@,
            task@.x == processes::initial_registers(program.user_sp),
            task@.sepc == program.entry_point,
            task@.heap_bottom == program.user_sp,
            task@.program_brk == program.user_sp,
            task@.parent is None,
            task@.children.len() == 0,
    {
        TaskControlBlock {
            task_status: TaskStatus::Ready,
            exit_code: 0,
            memory_set: program.memory_set,
            trap_cx: Self::app_init_context(program.entry_point, program.user_sp),
            heap_bottom: program.user_sp,
            program_brk: program.user_sp,
            parent: None,
            children: Vec::new(),
        }
    }

    /// A copy of the process, as a child of process `parent`.
    fn fork(&self, parent: usize) -> (child: Self)
        requires
            self.wf(),
        ensures
            child.wf(),
            child@ == self@.child_of(parent),
    {
        let child = TaskControlBlock {
            task_status: TaskStatus::Ready,
            exit_code: 0,
            memory_set: self.memory_set.duplicate(),
            trap_cx: self.trap_cx,
            heap_bottom: self.heap_bottom,
            program_brk: self.program_brk,
            parent: Some(parent),
            children: Vec::new(),
        };
        assert(child@ =~= self@.child_of(parent));
        child
    }

    /// Puts a program in place of what the process ran.
    fn exec(&mut self, program: UserProgram)
        requires
            old(self).wf(),
            program.memory_set.wf(),
        ensures
            final(self).wf(),
            final(self)@ == old(self)@.executing(
                program.memory_set@,
                program.user_sp,
                program.entry_point,
            ),
    {
        self.trap_cx = Self::app_init_context(program.entry_point, program.user_sp);
        self.heap_bottom = program.user_sp;
        self.program_brk = program.user_sp;
        self.memory_set = program.memory_set;
        assert(self@ =~= old(self)@.executing(
            program.memory_set@,
            program.user_sp,
            program.entry_point,
        ));
    }
}

impl TaskControlBlock {
    /// Moves the end of the heap by `size` bytes and gives where it was, unless the heap would
    /// end before it starts or no area is on record for it.
    fn change_program_brk(&mut self, size: i32) -> (old_brk: Option<usize>)
        requires
            old(self).wf(),
            processes::can_change_brk(old(self)@, size as int),
        ensures
            final(self).wf(),
            if processes::brk_changes(old(self)@, size as int) {
                &&& old_brk == Some(old(self)@.program_brk)
                &&& final(self)@ == processes::brk_changed(old(self)@, size as int)
            } else {
                old_brk is None && final(self)@ == old(self)@
            },
    {
        let old_break: usize = self.program_brk;
        let new_brk: isize = self.program_brk as isize + size as isize;
        if new_brk < self.heap_bottom as isize {
            return None;
        }
        let start = VirtAddr(self.heap_bottom);
        let end = VirtAddr(new_brk as usize);
        let found: bool = if size < 0 {
            self.memory_set.shrink_to(start, end)
        } else {
            self.memory_set.append_to(start, end)
        };
        if found {
            self.program_brk = new_brk as usize;
            assert(self@ =~= processes::brk_changed(old(self)@, size as int));
            Some(old_break)
        } else {
            assert(self@ =~= old(self)@);
            None
        }
    }
}

/// The view of an entry of the process table.
pub open spec fn entry_view(entry: Option<TaskControlBlock>) -> Option<TaskView> {
    match entry {
        Some(task) => Some(task@),
        None => None,
    }
}

/// The kernel's table of processes.
pub struct Kernel {
    tasks: Vec<Option<TaskControlBlock>>,
    recycled: Vec<usize>,
    ready_queue: Vec<usize>,
    current: Option<usize>,
}

impl View for Kernel {
    type V = KernelView;

    closed spec fn view(&self) -> KernelView {
        KernelView {
            tasks: Seq::new(self.tasks@.len(), |i: int| entry_view(self.tasks@[i])),
            recycled: self.recycled@,
            ready: self.ready_queue@,
            current: self.current,
        }
    }
}

impl Kernel {
    /// Every address space is whole.
    closed spec fn tasks_wf(&self) -> bool {
        forall|i: int|
            0 <= i < self.tasks@.len() && (#[trigger] self.tasks@[i]) is Some
                ==> self.tasks@[i]->0.wf()
    }

    pub closed spec fn wf(&self) -> bool {
        &&& self@.wf()
        &&& self.tasks_wf()
    }

    pub proof fn lemma_view_wf(&self)
        requires
            self.wf(),
        ensures
            self@.wf(),
    {
    }

    /// Process `pid`, to be read.
    fn task_ref(&self, pid: usize) -> (task: &TaskControlBlock)
        requires
            self.tasks_wf(),
            self@.live(pid as int),
        ensures
            task@ == self@.task(pid as int),
            task.wf(),
            Some(*task) == self.tasks@[pid as int],
    {
        self.tasks[pid].as_ref().unwrap()
    }

    /// Process `pid`, to be changed.
    fn task_mut(&mut self, pid: usize) -> (task: &mut TaskControlBlock)
        requires
            old(self).tasks_wf(),
            old(self)@.live(pid as int),
        ensures
            task@ == old(self)@.task(pid as int),
            task.wf(),
            final(task).wf() ==> final(self).tasks_wf(),
            final(self)@ == old(self)@.with_task(pid as int, final(task)@),
    {
        self.tasks[pid].as_mut().unwrap()
    }

    /// The kernel with the init process running and no other process.
    pub fn boot(program: UserProgram) -> (kernel: Self)
        requires
            program.memory_set.wf(),
        ensures
            kernel.wf(),
            kernel@.tasks.len() == 1,
            kernel@.current == Some(INITPROC),
            kernel@.ready.len() == 0,
            kernel@.recycled.len() == 0,
            kernel@.running() == (TaskView {
                status: TaskStatus::Running,
                exit_code: 0,
                memory: program.memory_set@,
                x: processes::initial_registers(program.user_sp),
                sepc: program.entry_point,
                heap_bottom: program.user_sp,
                program_brk: program.user_sp,
                parent: None,
                children: Seq::empty(),
            }),
    {
        let mut task = TaskControlBlock::new(program);
        task.task_status = TaskStatus::Running;
        let mut tasks: Vec<Option<TaskControlBlock>> = Vec::new();
        tasks.push(Some(task));
        let kernel = Kernel {
            tasks,
            recycled: Vec::new(),
            ready_queue: Vec::new(),
            current: Some(INITPROC),
        };
        assert(kernel@.running().children =~= Seq::<usize>::empty());
        kernel
    }

    /// The number of the process that runs.
    pub fn current_pid(&self) -> (pid: Option<usize>)
        ensures
            pid == self@.current,
    {
        self.current
    }

    /// Whether there is a number for another process.
    pub fn can_fork(&self) -> (yes: bool)
        ensures
            yes == self@.can_fork(),
    {
        self.recycled.len() > 0 || self.tasks.len() < usize::MAX
    }

    /// Creates a child of the process that runs, a copy of it, and gives its number. The child
    /// does not wait for its turn yet.
    pub fn fork(&mut self) -> (pid: usize)
        requires
            old(self).wf(),
            old(self)@.current is Some,
            old(self)@.can_fork(),
        ensures
            final(self).wf(),
            pid == old(self)@.next_pid(),
            final(self)@ == old(self)@.forked(),
            !old(self)@.live(pid as int),
            final(self)@.live(pid as int),
            final(self)@.task(pid as int) == old(self)@.running().child_of(old(self)@.pid()),
            !final(self)@.ready.contains(pid),
    {
        let parent: usize = self.current.unwrap();
        proof {
            assert(self@.live(parent as int));
            processes::forked_wf(self@);
        }
        let child = self.task_ref(parent).fork(parent);
        let ghost task = child@;
        let pid: usize = match self.recycled.pop() {
            Some(pid) => {
                assert(pid == old(self)@.next_pid());
                assert(old(self)@.recycled[old(self)@.recycled.len() - 1] == pid);
                self.tasks[pid] = Some(child);
                pid
            },
            None => {
                let pid: usize = self.tasks.len();
                self.tasks.push(Some(child));
                pid
            },
        };
        assert(self@ =~= old(self)@.with_new_task(task));
        assert(self.tasks_wf());
        self.task_mut(parent).children.push(pid);
        assert(self@ =~= old(self)@.forked());
        pid
    }

    /// Makes a process get zero from the call that it returns from.
    pub fn clear_return_value(&mut self, pid: usize)
        requires
            old(self).wf(),
            old(self)@.live(pid as int),
        ensures
            final(self).wf(),
            final(self)@ == old(self)@.with_task(
                pid as int,
                TaskView {
                    x: old(self)@.task(pid as int).x.update(10, 0),
                    ..old(self)@.task(pid as int)
                },
            ),
    {
        let task = self.task_mut(pid);
        task.trap_cx.x[10] = 0;
        proof {
            processes::same_family_wf(
                old(self)@,
                pid as int,
                TaskView {
                    x: old(self)@.task(pid as int).x.update(10, 0),
                    ..old(self)@.task(pid as int)
                },
            );
            assert(self@ =~= old(self)@.with_task(
                pid as int,
                TaskView {
                    x: old(self)@.task(pid as int).x.update(10, 0),
                    ..old(self)@.task(pid as int)
                },
            ));
        }
    }

    /// Puts a process behind those that wait for their turn.
    pub fn add_task(&mut self, pid: usize)
        requires
            old(self).wf(),
            old(self)@.live(pid as int),
            old(self)@.task(pid as int).status == TaskStatus::Ready,
            !old(self)@.ready.contains(pid),
        ensures
            final(self).wf(),
            final(self)@ == old(self)@.queued(pid),
    {
        proof {
            processes::queued_wf(self@, pid);
        }
        self.ready_queue.push(pid);
        assert(self@ =~= old(self)@.queued(pid));
    }

    /// Puts a program in place of what a process ran.
    pub fn exec(&mut self, pid: usize, program: UserProgram)
        requires
            old(self).wf(),
            old(self)@.live(pid as int),
            program.memory_set.wf(),
        ensures
            final(self).wf(),
            final(self)@ == old(self)@.with_task(
                pid as int,
                old(self)@.task(pid as int).executing(
                    program.memory_set@,
                    program.user_sp,
                    program.entry_point,
                ),
            ),
    {
        let ghost task = self@.task(pid as int).executing(
            program.memory_set@,
            program.user_sp,
            program.entry_point,
        );
        proof {
            processes::same_family_wf(self@, pid as int, task);
        }
        self.task_mut(pid).exec(program);
    }

    /// Gives the next process that waits its turn, if one waits.
    fn run_next(&mut self)
        requires
            old(self).tasks_wf(),
            old(self)@.ready.len() > 0 ==> old(self)@.live(old(self)@.ready[0] as int),
        ensures
            final(self).tasks_wf(),
            final(self)@ == old(self)@.scheduled(),
    {
        if self.ready_queue.len() == 0 {
            self.current = None;
            assert(self@ =~= old(self)@.scheduled());
            return;
        }
        let next: usize = self.ready_queue.remove(0);
        self.current = Some(next);
        let ghost before = self@;
        assert(before.tasks =~= old(self)@.tasks);
        self.task_mut(next).task_status = TaskStatus::Running;
        assert(self@ =~= old(self)@.scheduled());
    }

    /// Makes the process that runs wait behind the others, and gives the next one its turn.
    pub fn suspend_current_and_run_next(&mut self)
        requires
            old(self).wf(),
            old(self)@.current is Some,
        ensures
            final(self).wf(),
            final(self)@ == old(self)@.suspended(),
    {
        let pid: usize = self.current.unwrap();
        proof {
            assert(self@.live(pid as int));
            processes::suspended_wf(self@);
            if self@.ready.len() > 0 {
                assert(self@.live(self@.ready[0] as int));
            }
        }
        self.task_mut(pid).task_status = TaskStatus::Ready;
        let ghost ready = old(self)@.with_task(
            pid as int,
            TaskView { status: TaskStatus::Ready, ..old(self)@.running() },
        );
        assert(self@ =~= ready);
        self.ready_queue.push(pid);
        assert(self@ =~= ready.queued(pid));
        self.run_next();
    }

    /// Ends the process that runs: the init process adopts its children, and the next process
    /// gets its turn.
    pub fn exit_current_and_run_next(&mut self, exit_code: i32)
        requires
            old(self).wf(),
            old(self)@.current is Some,
            old(self)@.pid() != INITPROC,
        ensures
            final(self).wf(),
            final(self)@ == old(self)@.exited(exit_code),
    {
        let pid: usize = self.current.unwrap();
        let ghost s = self@;
        proof {
            assert(s.live(pid as int));
            processes::exited_wf(s, exit_code);
            if s.ready.len() > 0 {
                assert(s.live(s.ready[0] as int));
            }
        }
        let mut children: Vec<usize> = Vec::new();
        let task = self.task_mut(pid);
        task.task_status = TaskStatus::Zombie;
        task.exit_code = exit_code;
        task.memory_set = MemorySet::new_bare();
        children.append(&mut task.children);
        let ghost adopted = s.running().children;
        assert(children@ =~= adopted);
        assert(adopted.take(0) =~= Seq::<usize>::empty());
        proof {
            let init = s.task(INITPROC as int).children;
            assert(init + adopted.take(0) =~= init);
            assert(self@.tasks[pid as int]->0.children =~= Seq::<usize>::empty());
            assert(self@ =~= s.ended_with(exit_code, adopted.take(0)));
        }
        let mut i: usize = 0;
        while i < children.len()
            invariant
                i <= children@.len(),
                children@ == adopted,
                s.wf(),
                s.current == Some(pid),
                pid != INITPROC,
                adopted == s.running().children,
                self.tasks_wf(),
                self@ == s.ended_with(exit_code, adopted.take(i as int)),
            decreases children@.len() - i,
        {
            let child: usize = children[i];
            let ghost before = self@;
            proof {
                assert(s.live(pid as int));
                assert(s.task(pid as int).children[i as int] == child);
                assert(s.live(child as int));
                assert(s.task(child as int).parent == Some(pid));
                assert(child != INITPROC && child != pid);
            }
            self.task_mut(child).parent = Some(INITPROC);
            self.task_mut(INITPROC).children.push(child);
            i = i + 1;
            proof {
                let done = adopted.take(i as int);
                let was = adopted.take(i - 1);
                assert(done =~= was.push(child));
                let want = s.ended_with(exit_code, done);
                assert forall|q: int| 0 <= q < want.tasks.len() implies #[trigger] self@.tasks[q]
                    == want.tasks[q] by {
                    if q == INITPROC {
                        let init = s.task(INITPROC as int).children;
                        assert((init + was).push(child) =~= init + done);
                        assert(self@.tasks[q]->0 =~= want.tasks[q]->0);
                    } else if q == child {
                        assert(done[i - 1] == child);
                        assert(done.contains(child));
                        assert(self@.tasks[q]->0 =~= want.tasks[q]->0);
                    } else {
                        assert(self@.tasks[q] == before.tasks[q]);
                        if done.contains(q as usize) {
                            let k = done.index_of(q as usize);
                            assert(was[k] == q);
                        }
                        if was.contains(q as usize) {
                            let k = was.index_of(q as usize);
                            assert(done[k] == q);
                        }
                    }
                }
                assert(self@ =~= want);
            }
        }
        assert(adopted.take(i as int) =~= adopted);
        self.run_next();
    }

    /// Whether the process that runs has a child that is asked for.
    pub fn has_child(&self, pid: isize) -> (yes: bool)
        requires
            self.wf(),
            self@.current is Some,
        ensures
            yes == (seqs::first_index(self@.running().children, processes::asked(pid))
                < self@.running().children.len()),
    {
        let ghost kids = self@.running().children;
        assert(self@.live(self@.pid() as int));
        let children = &self.task_ref(self.current.unwrap()).children;
        let mut i: usize = 0;
        while i < children.len()
            invariant
                i <= children@.len(),
                children@ == kids,
                kids == self@.running().children,
                forall|j: int| 0 <= j < i ==> !processes::asked(pid)(#[trigger] kids[j]),
            decreases children@.len() - i,
        {
            if pid == -1 || pid as usize == children[i] {
                proof {
                    seqs::lemma_first_index_is(kids, processes::asked(pid), i as int);
                }
                return true;
            }
            i = i + 1;
        }
        proof {
            seqs::lemma_first_index_is(kids, processes::asked(pid), i as int);
        }
        false
    }

    /// The index of the first child of the process that runs that is asked for and has ended.
    pub fn find_zombie(&self, pid: isize) -> (found: Option<usize>)
        requires
            self.wf(),
            self@.current is Some,
        ensures
            match found {
                Some(i) => i < self@.running().children.len() && i == seqs::first_index(
                    self@.running().children,
                    processes::asked_zombie(self@, pid),
                ),
                None => seqs::first_index(self@.running().children, processes::asked_zombie(self@, pid))
                    == self@.running().children.len(),
            },
    {
        let ghost kids = self@.running().children;
        let ghost p = self@.pid() as int;
        assert(self@.live(p));
        let children = &self.task_ref(self.current.unwrap()).children;
        let mut i: usize = 0;
        while i < children.len()
            invariant
                i <= children@.len(),
                children@ == kids,
                kids == self@.running().children,
                self.wf(),
                self@.live(p),
                kids == self@.task(p).children,
                forall|j: int| 0 <= j < i ==> !processes::asked_zombie(self@, pid)(#[trigger] kids[j]),
            decreases children@.len() - i,
        {
            let child: usize = children[i];
            assert(self@.task(p).children[i as int] == child);
            assert(self@.live(child as int));
            if self.task_ref(child).task_status == TaskStatus::Zombie && (pid == -1 || pid as usize
                == child) {
                proof {
                    seqs::lemma_first_index_is(kids, processes::asked_zombie(self@, pid), i as int);
                }
                return Some(i);
            }
            i = i + 1;
        }
        proof {
            seqs::lemma_first_index_is(kids, processes::asked_zombie(self@, pid), i as int);
        }
        None
    }

    /// Takes child `i` of the process that runs, which has ended, out of the table of processes,
    /// and gives its number and its exit code.
    pub fn reap(&mut self, i: usize) -> (ended: (usize, i32))
        requires
            old(self).wf(),
            old(self)@.current is Some,
            i < old(self)@.running().children.len(),
            old(self)@.task(old(self)@.running().children[i as int] as int).status
                == TaskStatus::Zombie,
        ensures
            final(self).wf(),
            ended.0 == old(self)@.running().children[i as int],
            ended.1 == old(self)@.task(ended.0 as int).exit_code,
            final(self)@ == old(self)@.reaped(i as int),
    {
        let pid: usize = self.current.unwrap();
        proof {
            assert(self@.live(pid as int));
            assert(self@.task(pid as int).children[i as int] == self@.running().children[i as int]);
            processes::reaped_wf(self@, i as int);
        }
        let child: usize = self.task_mut(pid).children.remove(i);
        let exit_code: i32 = self.task_ref(child).exit_code;
        self.tasks[child] = None;
        self.recycled.push(child);
        assert(self@ =~= old(self)@.reaped(i as int));
        (child, exit_code)
    }

    /// The address space of the process that runs, to be read.
    pub fn memory(&self) -> (memory_set: &MemorySet)
        requires
            self.wf(),
            self@.current is Some,
        ensures
            memory_set.wf(),
            memory_set@ == self@.running().memory,
    {
        assert(self@.live(self@.pid() as int));
        &self.task_ref(self.current.unwrap()).memory_set
    }

    /// The address space of the process that runs, to be changed.
    pub fn memory_mut(&mut self) -> (memory_set: &mut MemorySet)
        requires
            old(self).wf(),
            old(self)@.current is Some,
        ensures
            memory_set.wf(),
            memory_set@ == old(self)@.running().memory,
            final(memory_set).wf() ==> final(self).wf(),
            final(self)@ == old(self)@.with_memory(final(memory_set)@),
    {
        let pid: usize = self.current.unwrap();
        assert(self@.live(pid as int));
        proof {
            assert forall|memory: MemoryView| #[trigger] self@.with_memory(memory).wf() by {
                processes::same_family_wf(
                    self@,
                    pid as int,
                    TaskView { memory, ..self@.running() },
                );
            }
        }
        &mut self.task_mut(pid).memory_set
    }

    /// The registers of the process that runs, to be read and changed.
    pub fn get_trap_cx(&mut self) -> (cx: &mut TrapContext)
        requires
            old(self).wf(),
            old(self)@.current is Some,
        ensures
            cx.x@ == old(self)@.running().x,
            cx.sepc == old(self)@.running().sepc,
            final(self).wf(),
            final(self)@ == old(self)@.with_task(
                old(self)@.pid() as int,
                TaskView { x: final(cx).x@, sepc: final(cx).sepc, ..old(self)@.running() },
            ),
    {
        let pid: usize = self.current.unwrap();
        assert(self@.live(pid as int));
        proof {
            assert forall|task: TaskView|
                task.status == self@.running().status && task.parent == self@.running().parent
                    && task.children == self@.running().children && task.x.len() == 32
                implies #[trigger] self@.with_task(pid as int, task).wf() by {
                processes::same_family_wf(self@, pid as int, task);
            }
        }
        &mut self.task_mut(pid).trap_cx
    }

    /// Moves the end of the heap of the process that runs by `size` bytes and gives where it
    /// was, unless the heap would end before it starts or no area is on record for it.
    pub fn change_program_brk(&mut self, size: i32) -> (old_brk: Option<usize>)
        requires
            old(self).wf(),
            old(self)@.current is Some,
            processes::can_change_brk(old(self)@.running(), size as int),
        ensures
            final(self).wf(),
            if processes::brk_changes(old(self)@.running(), size as int) {
                &&& old_brk == Some(old(self)@.running().program_brk)
                &&& final(self)@ == old(self)@.with_task(
                    old(self)@.pid() as int,
                    processes::brk_changed(old(self)@.running(), size as int),
                )
            } else {
                old_brk is None && final(self)@ == old(self)@
            },
    {
        let pid: usize = self.current.unwrap();
        assert(self@.live(pid as int));
        proof {
            processes::same_family_wf(
                self@,
                pid as int,
                processes::brk_changed(self@.running(), size as int),
            );
        }
        let old_brk = self.task_mut(pid).change_program_brk(size);
        assert(old_brk is None ==> self@ =~= old(self)@);
        old_brk
    }

    /// Whether the heap of the process that runs can be asked to change by `size` bytes.
    pub fn can_change_program_brk(&self, size: i32) -> (yes: bool)
        requires
            self.wf(),
            self@.current is Some,
        ensures
            yes == processes::can_change_brk(self@.running(), size as int),
    {
        assert(self@.live(self@.pid() as int));
        let task = self.task_ref(self.current.unwrap());
        let max: usize = isize::MAX as usize;
        if task.program_brk > max || task.heap_bottom > max {
            return false;
        }
        match (task.program_brk as isize).checked_add(size as isize) {
            None => false,
            Some(new_brk) => {
                if new_brk < task.heap_bottom as isize {
                    return true;
                }
                let start = VirtAddr(task.heap_bottom);
                let end = VirtAddr(new_brk as usize);
                if size < 0 {
                    task.memory_set.can_shrink_to(start, end)
                } else {
                    task.memory_set.can_append_to(start, end)
                }
            },
        }
    }
}

} // verus!
