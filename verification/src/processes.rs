//! What the kernel knows of the processes, and what each event makes of it.
use crate::memory;
use crate::memory::MemoryView;
use vstd::prelude::*;

verus! {

/// The process that adopts the children of processes that have ended.
pub const INITPROC: usize = 0;

/// The states of a process.
#[derive(Clone, Copy, Debug, PartialEq, Eq, Structural)]
pub enum TaskStatus {
    Ready,
    Running,
    Zombie,
}

/// What the kernel knows of a process.
#[verifier::ext_equal]
pub struct TaskView {
    pub status: TaskStatus,
    pub exit_code: i32,
    pub memory: MemoryView,
    pub x: Seq<usize>,
    pub sepc: usize,
    /// Where the heap starts.
    pub heap_bottom: usize,
    /// Where the heap ends.
    pub program_brk: usize,
    pub parent: Option<usize>,
    pub children: Seq<usize>,
}

/// The registers of a process that has not run: all zero but for the stack pointer.
pub open spec fn initial_registers(user_sp: usize) -> Seq<usize> {
    Seq::new(
        32,
        |i: int|
            if i == 2 {
                user_sp
            } else {
                0
            },
    )
}

impl TaskView {
    /// The process with a program in place of what it ran.
    pub open spec fn executing(self, memory: MemoryView, user_sp: usize, entry: usize) -> TaskView {
        TaskView {
            memory,
            x: initial_registers(user_sp),
            sepc: entry,
            heap_bottom: user_sp,
            program_brk: user_sp,
            ..self
        }
    }

    /// A new child of process `parent`, which is this one.
    pub open spec fn child_of(self, parent: usize) -> TaskView {
        TaskView {
            status: TaskStatus::Ready,
            exit_code: 0,
            parent: Some(parent),
            children: Seq::empty(),
            ..self
        }
    }
}

/// What the kernel knows of all processes.
#[verifier::ext_equal]
pub struct KernelView {
    /// The processes by their numbers.
    pub tasks: Seq<Option<TaskView>>,
    /// The numbers that are free to be given again, the next one last.
    pub recycled: Seq<usize>,
    /// The processes that wait for their turn, the next one first.
    pub ready: Seq<usize>,
    /// The process that runs.
    pub current: Option<usize>,
}

impl KernelView {
    /// Whether there is a process `pid`.
    pub open spec fn live(self, pid: int) -> bool {
        0 <= pid < self.tasks.len() && self.tasks[pid] is Some
    }

    /// Process `pid`.
    pub open spec fn task(self, pid: int) -> TaskView {
        self.tasks[pid]->0
    }

    /// The number of the process that runs.
    pub open spec fn pid(self) -> usize {
        self.current->0
    }

    /// The process that runs.
    pub open spec fn running(self) -> TaskView {
        self.task(self.pid() as int)
    }

    /// Free numbers are those of no process, and each is kept once.
    pub open spec fn pids_wf(self) -> bool {
        &&& forall|i: int|
            0 <= i < self.recycled.len() ==> (#[trigger] self.recycled[i]) < self.tasks.len()
                && self.tasks[self.recycled[i] as int] is None
        &&& self.recycled.no_duplicates()
        &&& forall|pid: int|
            0 <= pid < self.tasks.len() && (#[trigger] self.tasks[pid]) is None
                ==> self.recycled.contains(pid as usize)
    }

    /// The processes that wait are ready, and wait once; the one that runs is the only one that
    /// is marked so.
    pub open spec fn schedule_wf(self) -> bool {
        &&& forall|i: int|
            0 <= i < self.ready.len() ==> self.live(#[trigger] self.ready[i] as int) && self.task(
                self.ready[i] as int,
            ).status == TaskStatus::Ready
        &&& self.ready.no_duplicates()
        &&& self.current matches Some(pid) ==> self.live(pid as int)
        &&& forall|pid: int| #[trigger]
            self.live(pid) ==> (self.task(pid).status == TaskStatus::Running <==> self.current
                == Some(pid as usize))
    }

    /// Parents and children know each other, and no process is its own parent. The init process
    /// has no parent and does not end. A process that has ended has no children.
    pub open spec fn family_wf(self) -> bool {
        &&& self.live(INITPROC as int)
        &&& self.task(INITPROC as int).parent is None
        &&& self.task(INITPROC as int).status != TaskStatus::Zombie
        &&& forall|pid: int, i: int|
            #![trigger self.task(pid).children[i]]
            self.live(pid) && 0 <= i < self.task(pid).children.len() ==> {
                &&& self.live(self.task(pid).children[i] as int)
                &&& self.task(self.task(pid).children[i] as int).parent == Some(pid as usize)
            }
        &&& forall|pid: int| #[trigger]
            self.live(pid) ==> {
                &&& self.task(pid).children.no_duplicates()
                &&& self.task(pid).status == TaskStatus::Zombie ==> self.task(pid).children.len()
                    == 0
                &&& self.task(pid).parent matches Some(p) ==> p != pid && self.live(p as int)
                    && self.task(p as int).children.contains(pid as usize)
            }
    }

    /// Every process has all its registers.
    pub open spec fn registers_wf(self) -> bool {
        forall|pid: int| #[trigger] self.live(pid) ==> self.task(pid).x.len() == 32
    }

    pub open spec fn wf(self) -> bool {
        &&& self.tasks.len() <= usize::MAX
        &&& self.registers_wf()
        &&& self.pids_wf()
        &&& self.schedule_wf()
        &&& self.family_wf()
    }

    /// The processes with another one in place of process `pid`.
    pub open spec fn with_task(self, pid: int, task: TaskView) -> KernelView {
        KernelView { tasks: self.tasks.update(pid, Some(task)), ..self }
    }

    /// The processes after the one that runs got another address space.
    pub open spec fn with_memory(self, memory: MemoryView) -> KernelView {
        self.with_task(self.pid() as int, TaskView { memory, ..self.running() })
    }

    /// The number that the next process gets.
    pub open spec fn next_pid(self) -> usize {
        if self.recycled.len() > 0 {
            self.recycled.last()
        } else {
            self.tasks.len() as usize
        }
    }

    /// Whether there is a number for another process.
    pub open spec fn can_fork(self) -> bool {
        self.recycled.len() > 0 || self.tasks.len() < usize::MAX
    }

    /// The processes with one more.
    pub open spec fn with_new_task(self, task: TaskView) -> KernelView {
        if self.recycled.len() > 0 {
            KernelView {
                tasks: self.tasks.update(self.recycled.last() as int, Some(task)),
                recycled: self.recycled.drop_last(),
                ..self
            }
        } else {
            KernelView { tasks: self.tasks.push(Some(task)), ..self }
        }
    }

    /// The processes after the one that runs got a child that is a copy of it. The child does
    /// not wait for its turn yet.
    pub open spec fn forked(self) -> KernelView {
        let s = self.with_new_task(self.running().child_of(self.pid()));
        s.with_task(
            self.pid() as int,
            TaskView { children: self.running().children.push(self.next_pid()), ..self.running() },
        )
    }

    /// The processes with `pid` waiting for its turn behind the others.
    pub open spec fn queued(self, pid: usize) -> KernelView {
        KernelView { ready: self.ready.push(pid), ..self }
    }

    /// The processes after the next one that waits got its turn, if one waits.
    pub open spec fn scheduled(self) -> KernelView {
        if self.ready.len() == 0 {
            KernelView { current: None, ..self }
        } else {
            let next = self.ready[0] as int;
            KernelView {
                ready: self.ready.skip(1),
                current: Some(next as usize),
                ..self.with_task(
                    next,
                    TaskView { status: TaskStatus::Running, ..self.task(next) },
                )
            }
        }
    }

    /// The processes after the one that runs went to wait behind the others, and the next one
    /// got its turn.
    pub open spec fn suspended(self) -> KernelView {
        self.with_task(
            self.pid() as int,
            TaskView { status: TaskStatus::Ready, ..self.running() },
        ).queued(self.pid()).scheduled()
    }

    /// The processes after the one that runs ended: it keeps its exit code and loses its address
    /// space, and the init process adopts its children.
    pub open spec fn ended(self, exit_code: i32) -> KernelView {
        self.ended_with(exit_code, self.running().children)
    }

    /// The processes after the one that runs ended and the init process adopted `adopted`.
    pub open spec fn ended_with(self, exit_code: i32, adopted: Seq<usize>) -> KernelView {
        KernelView {
            tasks: Seq::new(
                self.tasks.len(),
                |i: int|
                    match self.tasks[i] {
                        None => None,
                        Some(t) => Some(
                            if i == self.pid() {
                                TaskView {
                                    status: TaskStatus::Zombie,
                                    exit_code,
                                    memory: MemoryView::bare(),
                                    children: Seq::empty(),
                                    ..t
                                }
                            } else if i == INITPROC {
                                TaskView { children: t.children + adopted, ..t }
                            } else if adopted.contains(i as usize) {
                                TaskView { parent: Some(INITPROC), ..t }
                            } else {
                                t
                            },
                        ),
                    },
            ),
            ..self
        }
    }

    /// The processes after the one that runs ended and the next one got its turn.
    pub open spec fn exited(self, exit_code: i32) -> KernelView {
        self.ended(exit_code).scheduled()
    }

    /// The processes without child `i` of the one that runs, whose number is free again.
    pub open spec fn reaped(self, i: int) -> KernelView {
        let child = self.running().children[i];
        KernelView {
            tasks: self.tasks.update(
                self.pid() as int,
                Some(TaskView { children: self.running().children.remove(i), ..self.running() }),
            ).update(child as int, None),
            recycled: self.recycled.push(child),
            ..self
        }
    }
}

/// Whether a request for process `pid`, or for any process if `pid` is -1, is one for `child`.
pub open spec fn asks_for(pid: isize, child: usize) -> bool {
    pid == -1 || pid as usize == child
}

/// The property of a child that it is asked for.
pub open spec fn asked(pid: isize) -> spec_fn(usize) -> bool {
    |child: usize| asks_for(pid, child)
}

/// The property of a child that it is asked for and has ended.
pub open spec fn asked_zombie(s: KernelView, pid: isize) -> spec_fn(usize) -> bool {
    |child: usize| s.task(child as int).status == TaskStatus::Zombie && asks_for(pid, child)
}

/// Changing what a process has and does, but not its state nor its family, keeps the table of
/// processes in order.
pub proof fn same_family_wf(s: KernelView, pid: int, task: TaskView)
    requires
        s.wf(),
        s.live(pid),
        task.status == s.task(pid).status,
        task.parent == s.task(pid).parent,
        task.children == s.task(pid).children,
        task.x.len() == 32,
    ensures
        s.with_task(pid, task).wf(),
{
    let t = s.with_task(pid, task);
    assert forall|p: int| #[trigger] t.live(p) implies s.live(p) && t.task(p).status == s.task(
        p,
    ).status && t.task(p).parent == s.task(p).parent && t.task(p).children == s.task(
        p,
    ).children by {}
    assert forall|p: int| #[trigger] s.live(p) implies t.live(p) by {}
    assert forall|p: int| 0 <= p < t.tasks.len() && (#[trigger] t.tasks[p]) is None implies s.tasks[p] is None by {}
    assert forall|p: int, i: int|
        #![trigger t.task(p).children[i]]
        t.live(p) && 0 <= i < t.task(p).children.len() implies {
        &&& t.live(t.task(p).children[i] as int)
        &&& t.task(t.task(p).children[i] as int).parent == Some(p as usize)
    } by {
        assert(s.live(p));
        let c = s.task(p).children[i];
        assert(s.live(c as int));
    }
}

/// A process that waits, and that no process that waits already is, can be put behind those
/// that wait.
pub proof fn queued_wf(s: KernelView, pid: usize)
    requires
        s.wf(),
        s.live(pid as int),
        s.task(pid as int).status == TaskStatus::Ready,
        !s.ready.contains(pid),
    ensures
        s.queued(pid).wf(),
{
    let t = s.queued(pid);
    assert forall|p: int| #[trigger] t.live(p) implies s.live(p) by {}
    assert forall|i: int| 0 <= i < t.ready.len() implies t.live(#[trigger] t.ready[i] as int)
        && t.task(t.ready[i] as int).status == TaskStatus::Ready by {
        if i < s.ready.len() {
            assert(s.live(s.ready[i] as int));
        }
    }
    assert(t.ready.no_duplicates()) by {
        assert forall|i: int, j: int| 0 <= i < j < t.ready.len() implies t.ready[i]
            != t.ready[j] by {
            if j == s.ready.len() {
                assert(s.ready.contains(s.ready[i]));
            }
        }
    }
    assert(t.family_wf()) by {
        assert forall|p: int, i: int|
            #![trigger t.task(p).children[i]]
            t.live(p) && 0 <= i < t.task(p).children.len() implies {
            &&& t.live(t.task(p).children[i] as int)
            &&& t.task(t.task(p).children[i] as int).parent == Some(p as usize)
        } by {
            assert(s.live(s.task(p).children[i] as int));
        }
    }
    assert(t.pids_wf());
}

/// Creating a child keeps the table of processes in order. The child has a number that no
/// process had, and does not wait for its turn.
pub proof fn forked_wf(s: KernelView)
    requires
        s.wf(),
        s.current is Some,
        s.can_fork(),
    ensures
        s.forked().wf(),
        !s.live(s.next_pid() as int),
        s.forked().live(s.next_pid() as int),
        s.forked().task(s.next_pid() as int) == s.running().child_of(s.pid()),
        !s.forked().ready.contains(s.next_pid()),
{
    let t = s.forked();
    let p = s.pid() as int;
    let c = s.next_pid() as int;
    assert(s.live(p));
    assert(!s.live(c)) by {
        if s.recycled.len() > 0 {
            assert(s.recycled[s.recycled.len() - 1] == c);
        }
    }
    assert(t.task(c) == s.running().child_of(s.pid()));
    assert forall|q: int| #[trigger] t.live(q) <==> (s.live(q) || q == c) by {}
    assert forall|q: int| s.live(q) && q != p implies #[trigger] t.task(q) == s.task(q) by {}
    assert(t.pids_wf()) by {
        if s.recycled.len() > 0 {
            assert forall|i: int| 0 <= i < t.recycled.len() implies (#[trigger] t.recycled[i])
                < t.tasks.len() && t.tasks[t.recycled[i] as int] is None by {
                assert(t.recycled[i] == s.recycled[i]);
                assert(s.recycled[i] != s.recycled[s.recycled.len() - 1]);
                assert(!s.live(s.recycled[i] as int));
            }
            assert forall|q: int| 0 <= q < t.tasks.len() && (#[trigger] t.tasks[q]) is None
                implies t.recycled.contains(q as usize) by {
                assert(!t.live(q));
                assert(s.tasks[q] is None);
                let i = s.recycled.index_of(q as usize);
                assert(s.recycled.contains(q as usize));
                assert(t.recycled[i] == q);
            }
        } else {
            assert forall|q: int| 0 <= q < t.tasks.len() && (#[trigger] t.tasks[q]) is None
                implies t.recycled.contains(q as usize) by {
                assert(!t.live(q));
                assert(s.tasks[q] is None);
            }
        }
    }
    assert(t.schedule_wf()) by {
        assert forall|i: int| 0 <= i < t.ready.len() implies t.live(#[trigger] t.ready[i] as int)
            && t.task(t.ready[i] as int).status == TaskStatus::Ready by {
            assert(s.live(s.ready[i] as int));
        }
    }
    assert(!t.ready.contains(c as usize)) by {
        if s.ready.contains(c as usize) {
            let i = s.ready.index_of(c as usize);
            assert(s.live(s.ready[i] as int));
        }
    }
    assert(t.family_wf()) by {
        let kids = t.task(p).children;
        assert(kids == s.task(p).children.push(c as usize));
        assert forall|q: int, i: int|
            #![trigger t.task(q).children[i]]
            t.live(q) && 0 <= i < t.task(q).children.len() implies {
            &&& t.live(t.task(q).children[i] as int)
            &&& t.task(t.task(q).children[i] as int).parent == Some(q as usize)
        } by {
            if q == p && i == s.task(p).children.len() {
            } else {
                assert(q != c);
                let d = s.task(q).children[i];
                assert(t.task(q).children[i] == d);
                assert(s.live(d as int));
                assert(d != c);
            }
        }
        assert forall|q: int| #[trigger] t.live(q) implies {
            &&& t.task(q).children.no_duplicates()
            &&& t.task(q).status == TaskStatus::Zombie ==> t.task(q).children.len() == 0
            &&& t.task(q).parent matches Some(r) ==> r != q && t.live(r as int) && t.task(
                r as int,
            ).children.contains(q as usize)
        } by {
            if q == p {
                assert forall|i: int, j: int| 0 <= i < j < kids.len() implies kids[i]
                    != kids[j] by {
                    assert(s.live(s.task(p).children[i] as int));
                }
            }
            if q == c {
                assert(kids[kids.len() - 1] == c);
            } else {
                assert(s.live(q));
                if t.task(q).parent is Some {
                    let r = t.task(q).parent->0 as int;
                    assert(s.live(r));
                    let i = s.task(r).children.index_of(q as usize);
                    assert(t.task(r).children[i] == q);
                }
            }
        }
    }
}

/// After the process that runs went to wait, and the next one got its turn, the table of
/// processes is in order, and a process runs.
pub proof fn suspended_wf(s: KernelView)
    requires
        s.wf(),
        s.current is Some,
    ensures
        s.suspended().wf(),
        s.suspended().current is Some,
{
    let t = s.suspended();
    let p = s.pid() as int;
    let q = s.ready.push(s.pid());
    let n = q[0] as int;
    assert(s.live(p));
    assert forall|i: int| 0 <= i < s.ready.len() implies s.ready[i] != p by {
        assert(s.live(s.ready[i] as int));
    }
    assert(q.no_duplicates());
    assert(s.live(n)) by {
        if s.ready.len() > 0 {
            assert(s.live(s.ready[0] as int));
        }
    }
    assert forall|r: int| #[trigger] t.live(r) <==> s.live(r) by {}
    assert forall|r: int| #[trigger] t.live(r) implies t.task(r).parent == s.task(r).parent
        && t.task(r).children == s.task(r).children && (t.task(r).status == TaskStatus::Zombie
        <==> s.task(r).status == TaskStatus::Zombie) by {
        if r == n && s.ready.len() > 0 {
            assert(s.task(s.ready[0] as int).status == TaskStatus::Ready);
        }
    }
    assert(t.pids_wf()) by {
        assert forall|r: int| 0 <= r < t.tasks.len() && (#[trigger] t.tasks[r]) is None
            implies t.recycled.contains(r as usize) by {
            assert(!t.live(r));
            assert(s.tasks[r] is None);
        }
        assert forall|i: int| 0 <= i < t.recycled.len() implies (#[trigger] t.recycled[i])
            < t.tasks.len() && t.tasks[t.recycled[i] as int] is None by {
            assert(s.tasks[s.recycled[i] as int] is None);
            assert(!s.live(s.recycled[i] as int));
            assert(!t.live(t.recycled[i] as int));
        }
    }
    assert(t.schedule_wf()) by {
        assert forall|i: int| 0 <= i < t.ready.len() implies t.live(#[trigger] t.ready[i] as int)
            && t.task(t.ready[i] as int).status == TaskStatus::Ready by {
            assert(t.ready[i] == q[i + 1]);
            assert(q[i + 1] != q[0]);
            if i + 1 < s.ready.len() {
                assert(s.live(s.ready[i + 1] as int));
            }
        }
        assert(t.ready.no_duplicates()) by {
            assert forall|i: int, j: int| 0 <= i < j < t.ready.len() implies t.ready[i]
                != t.ready[j] by {
                assert(t.ready[i] == q[i + 1] && t.ready[j] == q[j + 1]);
            }
        }
    }
    assert(t.family_wf()) by {
        assert forall|r: int, i: int|
            #![trigger t.task(r).children[i]]
            t.live(r) && 0 <= i < t.task(r).children.len() implies {
            &&& t.live(t.task(r).children[i] as int)
            &&& t.task(t.task(r).children[i] as int).parent == Some(r as usize)
        } by {
            let d = s.task(r).children[i];
            assert(s.live(d as int));
        }
    }
}

/// After the process that runs ended, and the next one got its turn, the table of processes is
/// in order.
#[verifier::rlimit(20)]
pub proof fn exited_wf(s: KernelView, exit_code: i32)
    requires
        s.wf(),
        s.current is Some,
        s.pid() != INITPROC,
    ensures
        s.exited(exit_code).wf(),
{
    let e = s.ended(exit_code);
    let t = s.exited(exit_code);
    let p = s.pid() as int;
    let init = INITPROC as int;
    let adopted = s.running().children;
    assert(s.live(p));
    assert forall|i: int| 0 <= i < adopted.len() implies {
        &&& s.live(#[trigger] adopted[i] as int)
        &&& s.task(adopted[i] as int).parent == Some(p as usize)
        &&& adopted[i] != init
    } by {
        assert(s.task(p).children[i] == adopted[i]);
    }
    assert forall|r: int| #[trigger] t.live(r) <==> s.live(r) by {}
    assert forall|r: int| #[trigger] t.live(r) implies {
        &&& t.task(r).children == e.task(r).children
        &&& t.task(r).parent == e.task(r).parent
        &&& t.task(r).status == TaskStatus::Zombie <==> e.task(r).status == TaskStatus::Zombie
    } by {
        if s.ready.len() > 0 {
            assert(s.live(s.ready[0] as int));
            assert(s.task(s.ready[0] as int).status == TaskStatus::Ready);
        }
    }
    assert(t.registers_wf()) by {
        assert forall|r: int| #[trigger] t.live(r) implies t.task(r).x.len() == 32 by {
            assert(s.live(r));
            assert(t.task(r).x == s.task(r).x);
        }
    }
    assert(t.pids_wf()) by {
        assert forall|r: int| 0 <= r < t.tasks.len() && (#[trigger] t.tasks[r]) is None
            implies t.recycled.contains(r as usize) by {
            assert(!t.live(r));
            assert(s.tasks[r] is None);
        }
        assert forall|i: int| 0 <= i < t.recycled.len() implies (#[trigger] t.recycled[i])
            < t.tasks.len() && t.tasks[t.recycled[i] as int] is None by {
            assert(!s.live(s.recycled[i] as int));
            assert(!t.live(t.recycled[i] as int));
        }
    }
    assert(t.schedule_wf()) by {
        assert forall|i: int| 0 <= i < s.ready.len() implies s.live(#[trigger] s.ready[i] as int)
            && s.ready[i] != p by {
            assert(s.task(s.ready[i] as int).status == TaskStatus::Ready);
        }
        if s.ready.len() > 0 {
            assert forall|i: int| 0 <= i < t.ready.len() implies t.live(
                #[trigger] t.ready[i] as int,
            ) && t.task(t.ready[i] as int).status == TaskStatus::Ready by {
                assert(t.ready[i] == s.ready[i + 1]);
                assert(s.ready[i + 1] != s.ready[0]);
                assert(s.live(s.ready[i + 1] as int));
            }
            assert(t.ready.no_duplicates()) by {
                assert forall|i: int, j: int| 0 <= i < j < t.ready.len() implies t.ready[i]
                    != t.ready[j] by {
                    assert(t.ready[i] == s.ready[i + 1] && t.ready[j] == s.ready[j + 1]);
                }
            }
        }
        assert forall|r: int| #[trigger] t.live(r) implies (t.task(r).status
            == TaskStatus::Running <==> t.current == Some(r as usize)) by {
            assert(s.live(r));
            if s.ready.len() > 0 {
                assert(s.live(s.ready[0] as int));
            }
        }
    }
    assert(t.family_wf()) by {
        assert forall|r: int, i: int|
            #![trigger t.task(r).children[i]]
            t.live(r) && 0 <= i < t.task(r).children.len() implies {
            &&& t.live(t.task(r).children[i] as int)
            &&& t.task(t.task(r).children[i] as int).parent == Some(r as usize)
        } by {
            assert(s.live(r));
            let d = t.task(r).children[i];
            if r == p {
                assert(t.task(r).children.len() == 0);
            } else if r == init && i >= s.task(init).children.len() {
                assert(d == adopted[i - s.task(init).children.len()]);
                assert(adopted.contains(d));
                assert(d != p);
            } else {
                assert(d == s.task(r).children[i]);
                assert(s.live(d as int));
                assert(!adopted.contains(d)) by {
                    if adopted.contains(d) {
                        let k = adopted.index_of(d);
                        assert(s.task(adopted[k] as int).parent == Some(p as usize));
                    }
                }
            }
        }
        assert forall|r: int| #[trigger] t.live(r) implies {
            &&& t.task(r).children.no_duplicates()
            &&& t.task(r).status == TaskStatus::Zombie ==> t.task(r).children.len() == 0
            &&& t.task(r).parent matches Some(g) ==> g != r && t.live(g as int) && t.task(
                g as int,
            ).children.contains(r as usize)
        } by {
            assert(s.live(r));
            if r == init {
                let kids = t.task(init).children;
                let own = s.task(init).children;
                assert forall|i: int, j: int| 0 <= i < j < kids.len() implies kids[i]
                    != kids[j] by {
                    if i < own.len() && j >= own.len() {
                        assert(kids[i] == own[i] && kids[j] == adopted[j - own.len()]);
                        assert(s.task(s.task(init).children[i] as int).parent == Some(INITPROC));
                    } else if i >= own.len() {
                        assert(kids[i] == adopted[i - own.len()]);
                        assert(kids[j] == adopted[j - own.len()]);
                    }
                }
            }
            if s.task(r).parent is Some {
                let g = s.task(r).parent->0 as int;
                assert(s.live(g));
                let i = s.task(g).children.index_of(r as usize);
                assert(s.task(g).children[i] == r);
                if g == p {
                    assert(adopted.contains(r as usize));
                    let own = s.task(init).children;
                    assert(t.task(init).children[own.len() + i] == r);
                } else {
                    assert(t.task(g).children[i] == r);
                }
            }
        }
    }
}

/// Taking a child that has ended out of the table of processes keeps the table in order.
pub proof fn reaped_wf(s: KernelView, i: int)
    requires
        s.wf(),
        s.current is Some,
        0 <= i < s.running().children.len(),
        s.task(s.running().children[i] as int).status == TaskStatus::Zombie,
    ensures
        s.reaped(i).wf(),
        s.live(s.running().children[i] as int),
{
    let t = s.reaped(i);
    let p = s.pid() as int;
    let kids = s.task(p).children;
    assert(s.live(p));
    let c = kids[i] as int;
    assert(s.live(s.task(p).children[i] as int));
    assert(c != p);
    assert forall|r: int| #[trigger] t.live(r) <==> (s.live(r) && r != c) by {}
    assert forall|r: int| s.live(r) && r != c && r != p implies #[trigger] t.task(r) == s.task(r) by {}
    assert(t.pids_wf()) by {
        assert forall|r: int| 0 <= r < t.tasks.len() && (#[trigger] t.tasks[r]) is None
            implies t.recycled.contains(r as usize) by {
            assert(!t.live(r));
            if r == c {
                assert(t.recycled[s.recycled.len() as int] == c);
            } else {
                assert(s.tasks[r] is None);
                let k = s.recycled.index_of(r as usize);
                assert(s.recycled.contains(r as usize));
                assert(t.recycled[k] == r);
            }
        }
        assert forall|k: int| 0 <= k < t.recycled.len() implies (#[trigger] t.recycled[k])
            < t.tasks.len() && t.tasks[t.recycled[k] as int] is None by {
            if k < s.recycled.len() {
                assert(!s.live(s.recycled[k] as int));
                assert(!t.live(t.recycled[k] as int));
            }
        }
        assert(t.recycled.no_duplicates()) by {
            assert forall|k: int, l: int| 0 <= k < l < t.recycled.len() implies t.recycled[k]
                != t.recycled[l] by {
                assert(!s.live(s.recycled[k] as int));
            }
        }
    }
    assert(t.schedule_wf()) by {
        assert forall|k: int| 0 <= k < t.ready.len() implies t.live(#[trigger] t.ready[k] as int)
            && t.task(t.ready[k] as int).status == TaskStatus::Ready by {
            assert(s.live(s.ready[k] as int));
        }
    }
    assert(t.family_wf()) by {
        let left = t.task(p).children;
        assert(left == kids.remove(i));
        assert(forall|k: int|
            0 <= k < left.len() ==> #[trigger] left[k] == kids[if k < i {
                k
            } else {
                k + 1
            }]);
        assert(s.task(INITPROC as int).status != TaskStatus::Zombie);
        assert forall|r: int, k: int|
            #![trigger t.task(r).children[k]]
            t.live(r) && 0 <= k < t.task(r).children.len() implies {
            &&& t.live(t.task(r).children[k] as int)
            &&& t.task(t.task(r).children[k] as int).parent == Some(r as usize)
        } by {
            assert(s.live(r));
            let k0 = if r == p && k >= i {
                k + 1
            } else {
                k
            };
            let d = s.task(r).children[k0];
            assert(t.task(r).children[k] == d);
            assert(s.live(d as int));
            assert(d != c) by {
                if d == c {
                    assert(s.task(c).parent == Some(p as usize));
                    assert(kids[k0] == kids[i]);
                }
            }
        }
        assert forall|r: int| #[trigger] t.live(r) implies {
            &&& t.task(r).children.no_duplicates()
            &&& t.task(r).status == TaskStatus::Zombie ==> t.task(r).children.len() == 0
            &&& t.task(r).parent matches Some(g) ==> g != r && t.live(g as int) && t.task(
                g as int,
            ).children.contains(r as usize)
        } by {
            assert(s.live(r));
            if s.task(r).parent is Some {
                let g = s.task(r).parent->0 as int;
                assert(s.live(g));
                let k = s.task(g).children.index_of(r as usize);
                assert(s.task(g).children.contains(r as usize));
                assert(g != c);
                if g == p {
                    let k1 = if k < i {
                        k
                    } else {
                        k - 1
                    };
                    assert(k != i);
                    assert(left[k1] == r);
                } else {
                    assert(t.task(g).children[k] == r);
                }
            }
        }
    }
}

/// Whether the heap of a process can change by `size` bytes: the new end of the heap is an
/// address, and the pages that the heap then gains or loses can be mapped or unmapped.
pub open spec fn can_change_brk(t: TaskView, size: int) -> bool {
    let brk = t.program_brk + size;
    let k = t.memory.area_at(memory::page_floor(t.heap_bottom as int));
    &&& t.program_brk <= isize::MAX
    &&& t.heap_bottom <= isize::MAX
    &&& isize::MIN <= brk <= isize::MAX
    &&& t.heap_bottom <= brk && k < t.memory.areas.len() ==> if size < 0 {
        t.memory.can_shrink(k, memory::page_ceil(brk))
    } else {
        t.memory.can_append(k, memory::page_ceil(brk))
    }
}

/// Whether the heap of a process changes when asked to change by `size` bytes: it does not if it
/// would end before it starts, or if no area is on record for it.
pub open spec fn brk_changes(t: TaskView, size: int) -> bool {
    &&& t.heap_bottom <= t.program_brk + size
    &&& t.memory.area_at(memory::page_floor(t.heap_bottom as int)) < t.memory.areas.len()
}

/// A process after its heap changed by `size` bytes.
pub open spec fn brk_changed(t: TaskView, size: int) -> TaskView {
    let brk = t.program_brk + size;
    let k = t.memory.area_at(memory::page_floor(t.heap_bottom as int));
    TaskView {
        program_brk: brk as usize,
        memory: if size < 0 {
            t.memory.shrunk(k, memory::page_ceil(brk))
        } else {
            t.memory.appended(k, memory::page_ceil(brk))
        },
        ..t
    }
}

} // verus!
