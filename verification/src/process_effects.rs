//! What each system call makes of the processes, said of their registers, their pages and the
//! bytes in them, one by one.
use crate::efs::FsView;
use crate::memory;
use crate::memory::{MapPermission, MemoryView};
use crate::model;
use crate::model::DiskInodeType;
use crate::process;
use crate::process_laws;
use crate::processes;
use crate::processes::{KernelView, TaskStatus, TaskView};
use crate::seqs;
use crate::task::UserProgram;
use crate::vfs::Inode;
use crate::words;
use vstd::prelude::*;
use vstd::utf8::*;

verus! {

/// A fork gives the child the number that was freed last, or one more than all numbers given so
/// far. The child has the memory, the heap, the program counter and the registers of its parent,
/// but for register 10, which is zero; it has not ended, has no children, and waits behind all
/// others. The parent gains the child as its last and is otherwise as before, as are all others.
pub proof fn fork_effect(s: KernelView)
    requires
        s.wf(),
        s.current is Some,
        s.can_fork(),
    ensures
        ({
            let p = s.current->0 as int;
            let parent = s.tasks[p]->0;
            let c = s.next_pid() as int;
            let t = process::after_fork(s);
            &&& s.recycled.len() > 0 ==> c == s.recycled[s.recycled.len() - 1] && t.recycled
                == s.recycled.drop_last() && t.tasks.len() == s.tasks.len()
            &&& s.recycled.len() == 0 ==> c == s.tasks.len() && t.recycled == s.recycled
                && t.tasks.len() == s.tasks.len() + 1
            &&& c < s.tasks.len() ==> s.tasks[c] is None
            &&& t.tasks[c] == Some(
                TaskView {
                    status: TaskStatus::Ready,
                    exit_code: 0,
                    memory: parent.memory,
                    x: parent.x.update(10, 0),
                    sepc: parent.sepc,
                    heap_bottom: parent.heap_bottom,
                    program_brk: parent.program_brk,
                    parent: Some(p as usize),
                    children: Seq::empty(),
                },
            )
            &&& t.tasks[c]->0.x.len() == 32
            &&& t.tasks[p] == Some(
                TaskView { children: parent.children.push(c as usize), ..parent },
            )
            &&& forall|q: int|
                0 <= q < s.tasks.len() && q != p && q != c ==> #[trigger] t.tasks[q] == s.tasks[q]
            &&& t.ready == s.ready.push(c as usize)
            &&& t.current == s.current
        }),
{
    assert(s.live(s.current->0 as int));
    processes::forked_wf(s);
    if s.recycled.len() > 0 {
        assert(s.recycled[s.recycled.len() - 1] < s.tasks.len());
    }
}

/// There is a number for another process unless all that fit a `usize` are those of processes.
pub proof fn fork_accepts(s: KernelView)
    requires
        s.wf(),
    ensures
        s.can_fork() <==> s.recycled.len() > 0 || s.tasks.len() < usize::MAX,
        s.can_fork() <== exists|q: int| 0 <= q < s.tasks.len() && (#[trigger] s.tasks[q]) is None,
{
    if exists|q: int| 0 <= q < s.tasks.len() && (#[trigger] s.tasks[q]) is None {
        let q = choose|q: int| 0 <= q < s.tasks.len() && (#[trigger] s.tasks[q]) is None;
        assert(s.recycled.contains(q as usize));
    }
}

/// A child that was just forked and its parent get the same answer from the same change of the
/// heap, and their heaps then end at the same address.
pub proof fn fork_then_sbrk(s: KernelView, size: int)
    requires
        s.wf(),
        s.current is Some,
        s.can_fork(),
    ensures
        ({
            let parent = s.tasks[s.current->0 as int]->0;
            let child = process::after_fork(s).tasks[s.next_pid() as int]->0;
            &&& processes::can_change_brk(child, size) == processes::can_change_brk(parent, size)
            &&& processes::brk_changes(child, size) == processes::brk_changes(parent, size)
            &&& child.program_brk == parent.program_brk
            &&& processes::brk_changed(child, size).program_brk == processes::brk_changed(
                parent,
                size,
            ).program_brk
            &&& processes::brk_changed(child, size).memory == processes::brk_changed(
                parent,
                size,
            ).memory
        }),
{
    fork_effect(s);
}

/// A process that executes a program has the memory of the program, goes on at its entry point
/// with its stack pointer in register 2 and all other registers zero, and has a heap that starts
/// and ends at the stack pointer. Nothing else changes.
pub proof fn exec_effect(s: KernelView, program: UserProgram)
    requires
        s.wf(),
        s.current is Some,
    ensures
        ({
            let p = s.current->0 as int;
            let was = s.tasks[p]->0;
            let t = process::after_exec(s, program);
            let now = t.tasks[p]->0;
            &&& t.tasks[p] is Some
            &&& now.memory == program.memory_set@
            &&& now.sepc == program.entry_point
            &&& now.x.len() == 32
            &&& now.x[2] == program.user_sp
            &&& forall|r: int| 0 <= r < 32 && r != 2 ==> #[trigger] now.x[r] == 0
            &&& now.heap_bottom == program.user_sp
            &&& now.program_brk == program.user_sp
            &&& now.status == was.status
            &&& now.exit_code == was.exit_code
            &&& now.parent == was.parent
            &&& now.children == was.children
            &&& t.tasks.len() == s.tasks.len()
            &&& forall|q: int|
                0 <= q < s.tasks.len() && q != p ==> #[trigger] t.tasks[q] == s.tasks[q]
            &&& t.recycled == s.recycled
            &&& t.ready == s.ready
            &&& t.current == s.current
        }),
{
    assert(s.live(s.current->0 as int));
}

/// A spawn makes a child that waits behind all others and will start the program as an exec of it
/// would: with the memory of the program, at its entry point, with its stack pointer in register 2
/// and all other registers zero. The caller gains the child as its last and is otherwise as
/// before, as are all others.
pub proof fn spawn_effect(s: KernelView, program: UserProgram)
    requires
        s.wf(),
        s.current is Some,
        s.can_fork(),
    ensures
        ({
            let p = s.current->0 as int;
            let parent = s.tasks[p]->0;
            let c = s.next_pid() as int;
            let t = process::after_spawn(s, program);
            let child = t.tasks[c]->0;
            let execs = process::after_exec(s, program).tasks[p]->0;
            &&& c < s.tasks.len() ==> s.tasks[c] is None
            &&& t.tasks[c] is Some
            &&& child.memory == program.memory_set@
            &&& child.sepc == program.entry_point
            &&& child.x.len() == 32
            &&& child.x[2] == program.user_sp
            &&& forall|r: int| 0 <= r < 32 && r != 2 ==> #[trigger] child.x[r] == 0
            &&& child.heap_bottom == program.user_sp
            &&& child.program_brk == program.user_sp
            &&& child.status == TaskStatus::Ready
            &&& child.exit_code == 0
            &&& child.parent == Some(p as usize)
            &&& child.children.len() == 0
            &&& child.memory == execs.memory && child.sepc == execs.sepc && child.x == execs.x
            &&& t.tasks[p] == Some(
                TaskView { children: parent.children.push(c as usize), ..parent },
            )
            &&& forall|q: int|
                0 <= q < s.tasks.len() && q != p && q != c ==> #[trigger] t.tasks[q] == s.tasks[q]
            &&& t.ready == s.ready.push(c as usize)
            &&& t.current == s.current
        }),
{
    assert(s.live(s.current->0 as int));
    processes::forked_wf(s);
    assert(process::after_spawn(s, program).tasks[s.next_pid() as int]->0.x =~= process::after_exec(
        s,
        program,
    ).tasks[s.current->0 as int]->0.x);
}

/// A spawn that finds no program leaves a child that is a copy of the caller, registers and all,
/// and that does not wait for its turn.
pub proof fn failed_spawn_effect(s: KernelView)
    requires
        s.wf(),
        s.current is Some,
        s.can_fork(),
    ensures
        ({
            let p = s.current->0 as int;
            let parent = s.tasks[p]->0;
            let c = s.next_pid() as int;
            let t = s.forked();
            &&& t.tasks[c] == Some(
                TaskView {
                    status: TaskStatus::Ready,
                    exit_code: 0,
                    memory: parent.memory,
                    x: parent.x,
                    sepc: parent.sepc,
                    heap_bottom: parent.heap_bottom,
                    program_brk: parent.program_brk,
                    parent: Some(p as usize),
                    children: Seq::empty(),
                },
            )
            &&& t.tasks[p] == Some(
                TaskView { children: parent.children.push(c as usize), ..parent },
            )
            &&& forall|q: int|
                0 <= q < s.tasks.len() && q != p && q != c ==> #[trigger] t.tasks[q] == s.tasks[q]
            &&& t.ready == s.ready
            &&& t.current == s.current
        }),
{
    assert(s.live(s.current->0 as int));
    processes::forked_wf(s);
}

/// The process that yields is ready and waits behind all others; the first of those that wait, or
/// itself if none waits, runs. Nothing else changes.
pub proof fn yield_effect(s: KernelView)
    requires
        s.wf(),
        s.current is Some,
    ensures
        ({
            let p = s.current->0;
            let t = s.suspended();
            let next = if s.ready.len() == 0 {
                p
            } else {
                s.ready[0]
            };
            &&& t.current == Some(next)
            &&& s.ready.len() == 0 ==> t.ready.len() == 0
            &&& s.ready.len() > 0 ==> {
                &&& next != p
                &&& t.ready.len() == s.ready.len()
                &&& t.ready[t.ready.len() - 1] == p
                &&& forall|k: int|
                    0 <= k < s.ready.len() - 1 ==> #[trigger] t.ready[k] == s.ready[k + 1]
            }
            &&& t.tasks.len() == s.tasks.len()
            &&& forall|q: int|
                0 <= q < s.tasks.len() && q != p && q != next ==> #[trigger] t.tasks[q]
                    == s.tasks[q]
            &&& t.tasks[next as int] == Some(
                TaskView { status: TaskStatus::Running, ..s.tasks[next as int]->0 },
            )
            &&& next != p ==> t.tasks[p as int] == Some(
                TaskView { status: TaskStatus::Ready, ..s.tasks[p as int]->0 },
            )
            &&& t.recycled == s.recycled
        }),
{
    let p = s.current->0 as int;
    assert(s.live(p));
    if s.ready.len() > 0 {
        assert(s.live(s.ready[0] as int));
        assert(s.task(s.ready[0] as int).status == TaskStatus::Ready);
    }
}

/// The process that ends keeps the exit code that it ended with and its parent, and has neither
/// pages nor children left. Its children go to process 0, behind those that it has. The first
/// process that waits runs, if one waits. Nothing else changes.
pub proof fn exit_effect(s: KernelView, exit_code: i32)
    requires
        s.wf(),
        s.current is Some,
        s.current->0 != 0,
    ensures
        ({
            let p = s.current->0 as int;
            let kids = s.tasks[p]->0.children;
            let t = s.exited(exit_code);
            let runs = |q: int| s.ready.len() > 0 && q == s.ready[0];
            &&& t.tasks.len() == s.tasks.len()
            &&& t.tasks[p] == Some(
                TaskView {
                    status: TaskStatus::Zombie,
                    exit_code,
                    memory: MemoryView { pages: Map::empty(), areas: Seq::empty() },
                    children: Seq::empty(),
                    ..s.tasks[p]->0
                },
            )
            &&& forall|q: int|
                0 <= q < s.tasks.len() && q != p ==> (#[trigger] t.tasks[q] is Some
                    <==> s.tasks[q] is Some)
            &&& forall|q: int|
                0 <= q < s.tasks.len() && q != p && s.tasks[q] is Some ==> (
                #[trigger] t.tasks[q])->0 == (TaskView {
                    status: if runs(q) {
                        TaskStatus::Running
                    } else {
                        s.tasks[q]->0.status
                    },
                    parent: if q != 0 && kids.contains(q as usize) {
                        Some(0usize)
                    } else {
                        s.tasks[q]->0.parent
                    },
                    children: if q == 0 {
                        s.tasks[q]->0.children + kids
                    } else {
                        s.tasks[q]->0.children
                    },
                    ..s.tasks[q]->0
                })
            &&& s.ready.len() == 0 ==> t.current is None && t.ready.len() == 0
            &&& s.ready.len() > 0 ==> t.current == Some(s.ready[0]) && t.ready == s.ready.skip(1)
            &&& t.recycled == s.recycled
        }),
{
    let p = s.current->0 as int;
    assert(s.live(p));
    if s.ready.len() > 0 {
        assert(s.live(s.ready[0] as int));
        assert(s.task(s.ready[0] as int).status == TaskStatus::Ready);
    }
}

/// The byte at address `a`.
pub open spec fn byte_at(m: MemoryView, a: int) -> u8 {
    m.pages[a / 4096].bytes[a % 4096]
}

/// Writing bytes to mapped memory puts each at its address and changes no other byte, no
/// permission, and not which pages and areas there are.
pub proof fn user_write_effect(m: MemoryView, addr: int, bytes: Seq<u8>)
    requires
        process_laws::pages_whole(m),
        0 <= addr,
        forall|a: int|
            addr <= a < addr + bytes.len() ==> m.pages.contains_key(#[trigger] (a / 4096)),
    ensures
        ({
            let t = m.with_bytes(addr, bytes);
            &&& t.areas == m.areas
            &&& forall|v: int| #[trigger] t.pages.contains_key(v) <==> m.pages.contains_key(v)
            &&& forall|v: int| #[trigger]
                t.pages.contains_key(v) ==> t.pages[v].perm == m.pages[v].perm
                    && t.pages[v].bytes.len() == 4096
            &&& forall|a: int|
                addr <= a < addr + bytes.len() ==> #[trigger] byte_at(t, a) == bytes[a - addr]
            &&& forall|a: int|
                m.pages.contains_key(a / 4096) && !(addr <= a < addr + bytes.len())
                    ==> #[trigger] byte_at(t, a) == byte_at(m, a)
        }),
{
    let t = m.with_bytes(addr, bytes);
    assert forall|a: int| addr <= a < addr + bytes.len() implies #[trigger] byte_at(t, a)
        == bytes[a - addr] by {
        assert(m.pages.contains_key(a / 4096));
    }
}

/// Bytes are mapped exactly if each is on a page that is.
pub proof fn mapped_is(m: MemoryView, addr: int, len: int)
    ensures
        m.mapped(addr, len) <==> forall|a: int|
            addr <= a < addr + len ==> m.pages.contains_key(#[trigger] (a / 4096)),
{
    if m.mapped(addr, len) {
        assert forall|a: int| addr <= a < addr + len implies m.pages.contains_key(
            #[trigger] (a / 4096),
        ) by {
            assert(m.pages.contains_key(memory::page_floor(a)));
        }
    }
    if forall|a: int| addr <= a < addr + len ==> m.pages.contains_key(#[trigger] (a / 4096)) {
        assert forall|a: int| addr <= a < addr + len implies m.pages.contains_key(
            #[trigger] memory::page_floor(a),
        ) by {
            assert(m.pages.contains_key(a / 4096));
        }
    }
}

/// Four bytes hold an exit code as it is held in two's complement, least significant byte first.
pub proof fn exit_code_bytes_are(exit_code: i32)
    ensures
        ({
            let b = process::exit_code_bytes(exit_code);
            &&& b.len() == 4
            &&& b[0] + 256 * b[1] + 65536 * b[2] + 16777216 * b[3] == exit_code as int
                % 0x1_0000_0000
        }),
{
    let u = exit_code as u32;
    assert(exit_code >= 0 ==> u == exit_code) by (bit_vector)
        requires
            u == exit_code as u32,
    ;
    assert(exit_code < 0 ==> u == exit_code + 0x1_0000_0000) by (bit_vector)
        requires
            u == exit_code as u32,
    ;
    reveal_with_fuel(words::le_bytes, 5);
}

/// A wait that gets child `i` of the caller writes the exit code of the child, whatever it is, to
/// the four bytes at `exit_code_ptr`, least significant byte first, and changes no other byte of
/// the caller. The child is gone, and its number is the next to be given. The caller keeps its
/// other children in their order; nothing else changes.
pub proof fn wait_effect(s: KernelView, i: int, exit_code_ptr: usize)
    requires
        s.wf(),
        s.current is Some,
        0 <= i < s.tasks[s.current->0 as int]->0.children.len(),
        process_laws::pages_whole(s.tasks[s.current->0 as int]->0.memory),
        forall|a: int|
            exit_code_ptr <= a < exit_code_ptr + 4
                ==> s.tasks[s.current->0 as int]->0.memory.pages.contains_key(#[trigger] (a / 4096)),
    ensures
        ({
            let p = s.current->0 as int;
            let was = s.tasks[p]->0;
            let c = was.children[i];
            let code = s.tasks[c as int]->0.exit_code;
            let t = process::after_wait(s, i, exit_code_ptr);
            let now = t.tasks[p]->0;
            let at = exit_code_ptr as int;
            &&& c != p
            &&& t.tasks[c as int] is None
            &&& t.tasks[p] is Some
            &&& byte_at(now.memory, at) + 256 * byte_at(now.memory, at + 1) + 65536 * byte_at(
                now.memory,
                at + 2,
            ) + 16777216 * byte_at(now.memory, at + 3) == code as int % 0x1_0000_0000
            &&& forall|a: int|
                was.memory.pages.contains_key(a / 4096) && !(at <= a < at + 4)
                    ==> #[trigger] byte_at(now.memory, a) == byte_at(was.memory, a)
            &&& now.memory.areas == was.memory.areas
            &&& forall|v: int| #[trigger]
                now.memory.pages.contains_key(v) <==> was.memory.pages.contains_key(v)
            &&& now == (TaskView {
                memory: now.memory,
                children: was.children.remove(i),
                ..was
            })
            &&& t.tasks.len() == s.tasks.len()
            &&& forall|q: int|
                0 <= q < s.tasks.len() && q != p && q != c ==> #[trigger] t.tasks[q] == s.tasks[q]
            &&& t.recycled == s.recycled.push(c)
            &&& t.ready == s.ready
            &&& t.current == s.current
        }),
{
    let p = s.current->0 as int;
    assert(s.live(p));
    let c = s.task(p).children[i];
    assert(s.live(c as int) && s.task(c as int).parent == Some(p as usize));
    let code = s.task(c as int).exit_code;
    let bytes = process::exit_code_bytes(code);
    exit_code_bytes_are(code);
    let m = s.task(p).memory;
    user_write_effect(m, exit_code_ptr as int, bytes);
    let t = m.with_bytes(exit_code_ptr as int, bytes);
    let at = exit_code_ptr as int;
    assert(byte_at(t, at) == bytes[0]);
    assert(byte_at(t, at + 1) == bytes[1]);
    assert(byte_at(t, at + 2) == bytes[2]);
    assert(byte_at(t, at + 3) == bytes[3]);
}

/// The exit code that a process ended with is what its parent finds where it asked for it: after
/// the exit of process `c` in state `s`, in any later state `u` in which the process is still as it
/// ended and is child `i` of the one that runs.
pub proof fn exit_then_wait(
    s: KernelView,
    exit_code: i32,
    u: KernelView,
    i: int,
    exit_code_ptr: usize,
)
    requires
        s.wf(),
        s.current is Some,
        s.current->0 != 0,
        u.wf(),
        u.current is Some,
        s.current->0 < u.tasks.len(),
        u.tasks[s.current->0 as int] == s.exited(exit_code).tasks[s.current->0 as int],
        0 <= i < u.tasks[u.current->0 as int]->0.children.len(),
        u.tasks[u.current->0 as int]->0.children[i] == s.current->0,
        process_laws::pages_whole(u.tasks[u.current->0 as int]->0.memory),
        forall|a: int|
            exit_code_ptr <= a < exit_code_ptr + 4
                ==> u.tasks[u.current->0 as int]->0.memory.pages.contains_key(#[trigger] (a / 4096)),
    ensures
        ({
            let m = process::after_wait(u, i, exit_code_ptr).tasks[u.current->0 as int]->0.memory;
            let at = exit_code_ptr as int;
            byte_at(m, at) + 256 * byte_at(m, at + 1) + 65536 * byte_at(m, at + 2) + 16777216
                * byte_at(m, at + 3) == exit_code as int % 0x1_0000_0000
        }),
{
    exit_effect(s, exit_code);
    wait_effect(u, i, exit_code_ptr);
}

/// A wait is answered for the children that have the number asked for, or for all of them if -1 is
/// asked for. It finds that there is none exactly if no child is asked for, and otherwise gets the
/// first of those asked for that has ended, if one has.
pub proof fn wait_choice(s: KernelView, pid: isize)
    ensures
        ({
            let kids = s.tasks[s.current->0 as int]->0.children;
            let i = process::awaited(s, pid);
            &&& process::has_asked(s, pid) <==> exists|k: int|
                0 <= k < kids.len() && (pid == -1 || pid as usize == #[trigger] kids[k])
            &&& 0 <= i <= kids.len()
            &&& forall|k: int|
                0 <= k < i && (pid == -1 || pid as usize == #[trigger] kids[k])
                    ==> s.tasks[kids[k] as int]->0.status != TaskStatus::Zombie
            &&& i < kids.len() ==> (pid == -1 || pid as usize == kids[i])
                && s.tasks[kids[i] as int]->0.status == TaskStatus::Zombie
            &&& pid >= 0 ==> pid as usize == pid
        }),
{
    let kids = s.running().children;
    process_laws::wait_cases(s, pid);
    seqs::lemma_first_index(kids, processes::asked(pid));
    let z = processes::asked_zombie(s, pid);
    seqs::lemma_first_index(kids, z);
    let h = seqs::first_index(kids, processes::asked(pid));
    if h < kids.len() {
        assert(processes::asked(pid)(kids[h]));
    }
    assert forall|k: int|
        0 <= k < kids.len() && (pid == -1 || pid as usize == #[trigger] kids[k]) implies h
        < kids.len() by {
        if h >= kids.len() {
            assert(!processes::asked(pid)(kids[k]));
        }
    }
    assert forall|k: int|
        0 <= k < process::awaited(s, pid) && (pid == -1 || pid as usize
            == #[trigger] kids[k]) implies s.tasks[kids[k] as int]->0.status
        != TaskStatus::Zombie by {
        assert(!z(kids[k]));
    }
}

/// A process that asked for the time finds at `ts` the whole seconds, and eight bytes behind them
/// the microseconds of the rest, both least significant byte first, in place of what stood there;
/// no other byte changes.
pub proof fn time_effect(m: MemoryView, ts: int, ms: usize)
    requires
        process_laws::pages_whole(m),
        0 <= ts,
        forall|a: int| ts <= a < ts + 16 ==> m.pages.contains_key(#[trigger] (a / 4096)),
    ensures
        ({
            let t = m.with_bytes(ts, process::time_at(ms).bytes());
            let word = |at: int|
                byte_at(t, at) + 0x100 * byte_at(t, at + 1) + 0x1_0000 * byte_at(t, at + 2)
                    + 0x100_0000 * byte_at(t, at + 3) + 0x1_0000_0000 * byte_at(t, at + 4)
                    + 0x100_0000_0000 * byte_at(t, at + 5) + 0x1_0000_0000_0000 * byte_at(
                    t,
                    at + 6,
                ) + 0x100_0000_0000_0000 * byte_at(t, at + 7);
            &&& word(ts) == ms as int / 1000
            &&& word(ts + 8) == (ms as int % 1000) * 1000
            &&& forall|a: int|
                m.pages.contains_key(a / 4096) && !(ts <= a < ts + 16) ==> #[trigger] byte_at(t, a)
                    == byte_at(m, a)
            &&& t.areas == m.areas
            &&& forall|v: int| #[trigger] t.pages.contains_key(v) <==> m.pages.contains_key(v)
        }),
{
    let time = process::time_at(ms);
    let sec = words::le_bytes(time.sec as nat, 8);
    let usec = words::le_bytes(time.usec as nat, 8);
    words::lemma_le_bytes_len(time.sec as nat, 8);
    words::lemma_le_bytes_len(time.usec as nat, 8);
    let bytes = time.bytes();
    let t = m.with_bytes(ts, bytes);
    user_write_effect(m, ts, bytes);
    eight_bytes(time.sec as nat);
    eight_bytes(time.usec as nat);
    assert forall|k: int| 0 <= k < 8 implies byte_at(t, ts + k) == sec[k] by {
        assert(bytes[k] == sec[k]);
        assert(byte_at(t, ts + k) == bytes[ts + k - ts]);
    }
    assert forall|k: int| 0 <= k < 8 implies byte_at(t, ts + 8 + k) == usec[k] by {
        assert(bytes[8 + k] == usec[k]);
        assert(byte_at(t, ts + 8 + k) == bytes[ts + 8 + k - ts]);
    }
    assert(byte_at(t, ts + 0) == sec[0]);
    assert(byte_at(t, ts + 8 + 0) == usec[0]);
}

/// What number the eight bytes hold that a number is written in.
proof fn eight_bytes(x: nat)
    requires
        x < 0x1_0000_0000_0000_0000,
    ensures
        ({
            let b = words::le_bytes(x, 8);
            &&& b.len() == 8
            &&& b[0] + 0x100 * b[1] + 0x1_0000 * b[2] + 0x100_0000 * b[3] + 0x1_0000_0000 * b[4]
                + 0x100_0000_0000 * b[5] + 0x1_0000_0000_0000 * b[6] + 0x100_0000_0000_0000 * b[7]
                == x
        }),
{
    let b = words::le_bytes(x, 8);
    words::lemma_le_bytes_len(x, 8);
    let x1 = x / 256;
    let x2 = x1 / 256;
    let x3 = x2 / 256;
    let x4 = x3 / 256;
    let x5 = x4 / 256;
    let x6 = x5 / 256;
    let x7 = x6 / 256;
    assert(words::le_bytes(x7, 1) =~= seq![(x7 % 256) as u8]) by {
        reveal_with_fuel(words::le_bytes, 2);
    }
    assert(words::le_bytes(x6, 2) =~= seq![(x6 % 256) as u8] + words::le_bytes(x7, 1));
    assert(words::le_bytes(x5, 3) =~= seq![(x5 % 256) as u8] + words::le_bytes(x6, 2));
    assert(words::le_bytes(x4, 4) =~= seq![(x4 % 256) as u8] + words::le_bytes(x5, 3));
    assert(words::le_bytes(x3, 5) =~= seq![(x3 % 256) as u8] + words::le_bytes(x4, 4));
    assert(words::le_bytes(x2, 6) =~= seq![(x2 % 256) as u8] + words::le_bytes(x3, 5));
    assert(words::le_bytes(x1, 7) =~= seq![(x1 % 256) as u8] + words::le_bytes(x2, 6));
    assert(b =~= seq![(x % 256) as u8] + words::le_bytes(x1, 7));
    assert(b[0] == x % 256);
    assert(b[1] == x1 % 256);
    assert(b[2] == x2 % 256);
    assert(b[3] == x3 % 256);
    assert(b[4] == x4 % 256);
    assert(b[5] == x5 % 256);
    assert(b[6] == x6 % 256);
    assert(b[7] == x7 % 256);
}

/// Pages are mapped exactly if the range starts with a page, one to three of the lowest three bits
/// of `port` are set and no others, and no byte of the range is on a page that is mapped.
pub proof fn mmap_accepts(m: MemoryView, start: usize, len: usize, port: usize)
    requires
        start + len <= usize::MAX,
    ensures
        (start % memory::PAGE_SIZE == 0 && process::port_valid(port as int) && m.none_mapped(
            memory::page_floor(start as int),
            memory::page_ceil(start + len),
        )) <==> {
            &&& start as int % 4096 == 0
            &&& port & !0x7 == 0
            &&& port & 0x7 != 0
            &&& forall|a: int|
                start <= a < start + len ==> !m.pages.contains_key(#[trigger] (a / 4096))
        },
{
    assert(port & !0x7 != 0 <==> port >= 8) by (bit_vector);
    assert(port < 8 ==> (port & 0x7 == 0 <==> port == 0)) by (bit_vector);
    if start as int % 4096 == 0 {
        lemma_range(m, start as int, start + len);
    }
}

/// The pages of a range that starts with a page are those that hold a byte of it.
proof fn lemma_range(m: MemoryView, start: int, end: int)
    requires
        0 <= start <= end,
        start % 4096 == 0,
    ensures
        m.none_mapped(memory::page_floor(start), memory::page_ceil(end)) <==> forall|a: int|
            start <= a < end ==> !m.pages.contains_key(#[trigger] (a / 4096)),
        m.all_mapped(memory::page_floor(start), memory::page_ceil(end)) <==> forall|a: int|
            start <= a < end ==> m.pages.contains_key(#[trigger] (a / 4096)),
{
    let first = memory::page_floor(start);
    let last = memory::page_ceil(end);
    assert forall|a: int| start <= a < end implies first <= #[trigger] (a / 4096) < last by {}
    assert forall|v: int| first <= v < last implies start <= #[trigger] (v * 4096) < end && (v
        * 4096) / 4096 == v by {}
    if forall|a: int| start <= a < end ==> !m.pages.contains_key(#[trigger] (a / 4096)) {
        assert forall|v: int| first <= v < last implies !#[trigger] m.pages.contains_key(v) by {
            assert(start <= v * 4096 < end);
            assert(!m.pages.contains_key((v * 4096) / 4096));
        }
    }
    if forall|a: int| start <= a < end ==> m.pages.contains_key(#[trigger] (a / 4096)) {
        assert forall|v: int| first <= v < last implies #[trigger] m.pages.contains_key(v) by {
            assert(start <= v * 4096 < end);
            assert(m.pages.contains_key((v * 4096) / 4096));
        }
    }
}

/// A page that was mapped is readable exactly if bit 0 of `port` is set, writable exactly if bit 1
/// is set, executable exactly if bit 2 is set, and for user mode; all its bytes are zero. These are
/// the pages from the one that starts the range up to the one that ends it. All other pages are as
/// before, and so are all other processes.
pub proof fn mmap_effect(s: KernelView, start: usize, len: usize, port: usize)
    requires
        s.wf(),
        s.current is Some,
        start + len <= usize::MAX,
        start % memory::PAGE_SIZE == 0,
        process::port_valid(port as int),
    ensures
        ({
            let p = s.current->0 as int;
            let was = s.tasks[p]->0;
            let t = s.with_memory(
                was.memory.with_area(
                    memory::page_floor(start as int),
                    memory::page_ceil(start + len),
                    process::port_permission(port as int),
                ),
            );
            let now = t.tasks[p]->0;
            let first = start as int / 4096;
            let last = (start + len + 4095) / 4096;
            &&& forall|v: int|
                first <= v < last ==> {
                    &&& #[trigger] now.memory.pages.contains_key(v)
                    &&& now.memory.pages[v].perm.readable <==> port & 0x1 != 0
                    &&& now.memory.pages[v].perm.writable <==> port & 0x2 != 0
                    &&& now.memory.pages[v].perm.executable <==> port & 0x4 != 0
                    &&& now.memory.pages[v].perm.user
                    &&& now.memory.pages[v].bytes.len() == 4096
                    &&& forall|k: int|
                        0 <= k < 4096 ==> #[trigger] now.memory.pages[v].bytes[k] == 0
                }
            &&& forall|v: int|
                !(first <= v < last) ==> {
                    &&& #[trigger] now.memory.pages.contains_key(v)
                        <==> was.memory.pages.contains_key(v)
                    &&& now.memory.pages.contains_key(v) ==> now.memory.pages[v]
                        == was.memory.pages[v]
                }
            &&& now.memory.areas.len() == was.memory.areas.len() + 1
            &&& forall|k: int|
                0 <= k < was.memory.areas.len() ==> #[trigger] now.memory.areas[k]
                    == was.memory.areas[k]
            &&& now.memory.areas[was.memory.areas.len() as int].start.0 == first
            &&& now.memory.areas[was.memory.areas.len() as int].end.0 == last
            &&& now.memory.areas[was.memory.areas.len() as int].perm == (MapPermission {
                readable: port & 0x1 != 0,
                writable: port & 0x2 != 0,
                executable: port & 0x4 != 0,
                user: true,
            })
            &&& now == (TaskView { memory: now.memory, ..was })
            &&& t == (KernelView { tasks: s.tasks.update(p, Some(now)), ..s })
        }),
{
    assert(s.live(s.current->0 as int));
    assert(port & 0x1 != 0 <==> port % 2 == 1) by (bit_vector);
    assert(port & 0x2 != 0 <==> port / 2 % 2 == 1) by (bit_vector);
    assert(port & 0x4 != 0 <==> port / 4 % 2 == 1) by (bit_vector);
}

/// Pages are unmapped exactly if the range starts with a page and every byte of it is on a page
/// that is mapped. The pages of the range are then gone; all others are as before, and so are all
/// other processes.
pub proof fn munmap_effect(s: KernelView, start: usize, len: usize)
    requires
        s.wf(),
        s.current is Some,
        start + len <= usize::MAX,
    ensures
        ({
            let p = s.current->0 as int;
            let was = s.tasks[p]->0;
            let t = s.with_memory(
                was.memory.without_pages(
                    memory::page_floor(start as int),
                    memory::page_ceil(start + len),
                ),
            );
            let now = t.tasks[p]->0;
            &&& (start % memory::PAGE_SIZE == 0 && was.memory.all_mapped(
                memory::page_floor(start as int),
                memory::page_ceil(start + len),
            )) <==> (start as int % 4096 == 0 && forall|a: int|
                start <= a < start + len ==> was.memory.pages.contains_key(#[trigger] (a / 4096)))
            &&& forall|v: int| #[trigger]
                now.memory.pages.contains_key(v) <==> was.memory.pages.contains_key(v) && !(
                start as int / 4096 <= v < (start + len + 4095) / 4096)
            &&& forall|v: int| #[trigger]
                now.memory.pages.contains_key(v) ==> now.memory.pages[v] == was.memory.pages[v]
            &&& now.memory.areas == was.memory.areas
            &&& now == (TaskView { memory: now.memory, ..was })
            &&& t == (KernelView { tasks: s.tasks.update(p, Some(now)), ..s })
        }),
{
    assert(s.live(s.current->0 as int));
    if start as int % 4096 == 0 {
        lemma_range(s.running().memory, start as int, start + len);
    }
}

/// The index of the first area that starts with the page of `heap_bottom` is that of the heap.
pub open spec fn is_heap_area(t: TaskView, k: int) -> bool {
    &&& 0 <= k < t.memory.areas.len()
    &&& t.memory.areas[k].start.0 == t.heap_bottom as int / 4096
    &&& forall|j: int|
        0 <= j < k ==> (#[trigger] t.memory.areas[j]).start.0 != t.heap_bottom as int / 4096
}

/// Which area the heap has.
proof fn lemma_heap_area(t: TaskView)
    ensures
        ({
            let k = t.memory.area_at(memory::page_floor(t.heap_bottom as int));
            &&& k < t.memory.areas.len() ==> is_heap_area(t, k)
            &&& forall|j: int| #[trigger] is_heap_area(t, j) ==> j == k
        }),
{
    let p = memory::starts_at(memory::page_floor(t.heap_bottom as int));
    let k = t.memory.area_at(memory::page_floor(t.heap_bottom as int));
    seqs::lemma_first_index(t.memory.areas, p);
    if k < t.memory.areas.len() {
        assert(p(t.memory.areas[k]));
        assert forall|j: int| 0 <= j < k implies (#[trigger] t.memory.areas[j]).start.0
            != t.heap_bottom as int / 4096 by {
            assert(!p(t.memory.areas[j]));
        }
    }
    assert forall|j: int| #[trigger] is_heap_area(t, j) implies j == k by {
        assert(p(t.memory.areas[j]));
        if k < j {
            assert(p(t.memory.areas[k]));
        } else if j < k {
            assert(!p(t.memory.areas[j]));
        }
    }
}

/// The heap changes exactly if it does not end before it starts and has an area. It then ends
/// `size` bytes further on. Where it grows, zero pages with the permissions of its area are mapped
/// from the end of the area up to the page that the heap ends in; where it shrinks, the pages of
/// the area from there on are gone. The area ends there; all else is as before.
pub proof fn sbrk_effect(t: TaskView, size: int)
    requires
        processes::can_change_brk(t, size),
    ensures
        processes::brk_changes(t, size) <==> t.program_brk + size >= t.heap_bottom && exists|k: int|
            is_heap_area(t, k),
        forall|k: int| #[trigger]
            is_heap_area(t, k) && t.program_brk + size >= t.heap_bottom ==> {
                let u = processes::brk_changed(t, size);
                let area = t.memory.areas[k];
                let end = (t.program_brk + size + 4095) / 4096;
                &&& u.program_brk == t.program_brk + size
                &&& u == (TaskView { program_brk: u.program_brk, memory: u.memory, ..t })
                &&& u.memory.areas.len() == t.memory.areas.len()
                &&& forall|j: int|
                    0 <= j < t.memory.areas.len() && j != k ==> #[trigger] u.memory.areas[j]
                        == t.memory.areas[j]
                &&& u.memory.areas[k].start == area.start && u.memory.areas[k].perm == area.perm
                &&& u.memory.areas[k].end.0 == end
                &&& size >= 0 ==> {
                    &&& area.end.0 <= end
                    &&& forall|v: int|
                        area.end.0 <= v < end ==> {
                            &&& !t.memory.pages.contains_key(v)
                            &&& #[trigger] u.memory.pages.contains_key(v)
                            &&& u.memory.pages[v].perm == area.perm
                            &&& u.memory.pages[v].bytes.len() == 4096
                            &&& forall|b: int|
                                0 <= b < 4096 ==> #[trigger] u.memory.pages[v].bytes[b] == 0
                        }
                    &&& forall|v: int|
                        !(area.end.0 <= v < end) ==> (#[trigger] u.memory.pages.contains_key(v)
                            <==> t.memory.pages.contains_key(v))
                }
                &&& size < 0 ==> {
                    &&& area.start.0 <= end <= area.end.0
                    &&& forall|v: int| #[trigger]
                        u.memory.pages.contains_key(v) <==> t.memory.pages.contains_key(v) && !(end
                            <= v < area.end.0)
                }
                &&& forall|v: int| #[trigger]
                    u.memory.pages.contains_key(v) && t.memory.pages.contains_key(v)
                        ==> u.memory.pages[v] == t.memory.pages[v]
            },
{
    lemma_heap_area(t);
    let k = t.memory.area_at(memory::page_floor(t.heap_bottom as int));
    if processes::brk_changes(t, size) {
        assert(is_heap_area(t, k));
    }
    if exists|j: int| is_heap_area(t, j) {
        let j = choose|j: int| is_heap_area(t, j);
        assert(is_heap_area(t, j));
        assert(j == k);
    }
}

/// A change of the heap can be asked for whenever the addresses are no larger than a signed number
/// can be, and the pages that the heap would gain are free, or those that it would lose are there.
pub proof fn sbrk_accepts(t: TaskView, size: int)
    ensures
        processes::can_change_brk(t, size) <==> {
            let end = (t.program_brk + size + 4095) / 4096;
            &&& t.program_brk <= isize::MAX
            &&& t.heap_bottom <= isize::MAX
            &&& isize::MIN <= t.program_brk + size <= isize::MAX
            &&& t.program_brk + size >= t.heap_bottom ==> forall|k: int| #[trigger]
                is_heap_area(t, k) ==> {
                    let area = t.memory.areas[k];
                    if size < 0 {
                        &&& area.start.0 <= end <= area.end.0
                        &&& forall|v: int|
                            end <= v < area.end.0 ==> #[trigger] t.memory.pages.contains_key(v)
                    } else {
                        &&& area.end.0 <= end
                        &&& forall|v: int|
                            area.end.0 <= v < end ==> !#[trigger] t.memory.pages.contains_key(v)
                    }
                }
        },
{
    lemma_heap_area(t);
    let k = t.memory.area_at(memory::page_floor(t.heap_bottom as int));
    if k < t.memory.areas.len() {
        assert(is_heap_area(t, k));
    }
}

/// A change to one process is a change to that process alone.
pub proof fn task_effect(s: KernelView, pid: int, task: TaskView)
    requires
        0 <= pid < s.tasks.len(),
    ensures
        s.with_task(pid, task).tasks.len() == s.tasks.len(),
        s.with_task(pid, task).tasks[pid] == Some(task),
        forall|q: int|
            0 <= q < s.tasks.len() && q != pid ==> #[trigger] s.with_task(pid, task).tasks[q]
                == s.tasks[q],
        s.with_task(pid, task).recycled == s.recycled,
        s.with_task(pid, task).ready == s.ready,
        s.with_task(pid, task).current == s.current,
{
}

/// A string stands at an address exactly if mapped bytes other than zero stand there with a zero
/// byte behind them; its characters are those bytes, one for one.
pub proof fn string_effect(m: MemoryView, addr: int)
    ensures
        m.has_cstring(addr) ==> ({
            let n = m.cstring(addr).len() as int;
            &&& forall|a: int|
                addr <= a <= addr + n ==> m.pages.contains_key(#[trigger] (a / 4096))
            &&& forall|k: int|
                0 <= k < n ==> #[trigger] byte_at(m, addr + k) != 0 && m.cstring(addr)[k]
                    == byte_at(m, addr + k) as char
            &&& byte_at(m, addr + n) == 0
        }),
        forall|n: int|
            0 <= n && addr + n <= usize::MAX && (forall|a: int|
                addr <= a <= addr + n ==> m.pages.contains_key(#[trigger] (a / 4096))) && (forall|
                k: int,
            |
                0 <= k < n ==> #[trigger] byte_at(m, addr + k) != 0) && #[trigger] byte_at(
                m,
                addr + n,
            ) == 0 ==> m.has_cstring(addr) && m.cstring(addr).len() == n,
{
    if m.has_cstring(addr) {
        let n = choose|n: int| m.has_string(addr, n);
        assert(m.has_string(addr, n));
        memory::string_is(m, addr, n);
        assert forall|a: int| addr <= a <= addr + n implies m.pages.contains_key(
            #[trigger] (a / 4096),
        ) by {
            assert(m.pages.contains_key(memory::page_floor(a)));
        }
        assert forall|k: int| 0 <= k < n implies #[trigger] byte_at(m, addr + k) != 0 && m.cstring(
            addr,
        )[k] == byte_at(m, addr + k) as char by {
            assert(m.byte(addr + k) != 0);
        }
    }
    assert forall|n: int|
        0 <= n && addr + n <= usize::MAX && (forall|a: int|
            addr <= a <= addr + n ==> m.pages.contains_key(#[trigger] (a / 4096))) && (forall|
            k: int,
        |
            0 <= k < n ==> #[trigger] byte_at(m, addr + k) != 0) && #[trigger] byte_at(
            m,
            addr + n,
        ) == 0 implies m.has_cstring(addr) && m.cstring(addr).len() == n by {
        assert forall|a: int| addr <= a < addr + n + 1 implies m.pages.contains_key(
            #[trigger] memory::page_floor(a),
        ) by {
            assert(m.pages.contains_key(a / 4096));
        }
        assert forall|a: int| addr <= a < addr + n implies #[trigger] m.byte(a) != 0 by {
            assert(byte_at(m, addr + (a - addr)) != 0);
        }
        assert(m.has_string(addr, n));
        memory::string_is(m, addr, n);
    }
}

/// The name that a system call is handed by an address is made of the bytes that stand there up to
/// the zero byte, where those are ASCII.
pub proof fn path_effect(s: KernelView, path: usize)
    requires
        s.current is Some,
        s.running().memory.has_cstring(path as int),
        forall|k: int|
            0 <= k < s.running().memory.cstring(path as int).len() ==> #[trigger] byte_at(
                s.tasks[s.current->0 as int]->0.memory,
                path + k,
            ) < 128,
    ensures
        ({
            let m = s.tasks[s.current->0 as int]->0.memory;
            let name = process::path_name(s, path);
            &&& forall|k: int|
                0 <= k < name.len() ==> #[trigger] name[k] == byte_at(m, path + k) && name[k] != 0
            &&& byte_at(m, path + name.len()) == 0
        }),
{
    let m = s.running().memory;
    let chars = m.cstring(path as int);
    string_effect(m, path as int);
    assert forall|k: int| 0 <= k < chars.len() implies '\0' <= #[trigger] chars[k] <= '\u{7f}' by {
        assert(byte_at(m, path + k) < 128);
    }
    assert(is_ascii_chars(chars));
    is_ascii_chars_encode_utf8(chars);
    let name = process::path_name(s, path);
    assert forall|k: int| 0 <= k < name.len() implies #[trigger] name[k] == byte_at(m, path + k)
        && name[k] != 0 by {
        assert(byte_at(m, path + k) < 128);
        assert(chars[k] as u8 == encode_utf8(chars)[k]);
    }
}

/// A program can be asked for whenever a string stands at the address, the root is a directory of
/// the file system, and the first entry with the name, if there is one, stands for an inode.
pub proof fn open_accepts(s: KernelView, fs: FsView, root: &Inode, path: usize)
    ensures
        process::may_open(s, fs, root, path) <==> {
            let dir = fs.files[root.index(fs)];
            let name = process::path_name(s, path);
            &&& s.tasks[s.current->0 as int]->0.memory.has_cstring(path as int)
            &&& root.valid(fs)
            &&& dir.kind == DiskInodeType::Directory
            &&& forall|k: int|
                0 <= k < dir.size as int / 32 && (#[trigger] dir.entries()[k]).name == name && (
                forall|j: int| 0 <= j < k ==> (#[trigger] dir.entries()[j]).name != name)
                    ==> dir.entries()[k].inode_id < fs.files.len()
        },
{
    let dir = root.file(fs);
    let name = process::path_name(s, path);
    model::lemma_position(dir, name);
    let p = dir.position(name);
    assert forall|k: int|
        0 <= k < dir.size as int / 32 && (#[trigger] dir.entries()[k]).name == name && (forall|
            j: int,
        |
            0 <= j < k ==> (#[trigger] dir.entries()[j]).name != name) implies k == p by {
        if p < k {
            assert(dir.entries()[p].name == name);
        } else if k < p {
            assert(dir.entries()[k].name != name);
        }
    }
}

/// A loader makes a program of bytes exactly if it takes every vector that holds them, and gives
/// only programs whose address space is in order.
pub proof fn loads_is<F: Fn(Vec<u8>) -> UserProgram>(load: F, content: Seq<u8>)
    ensures
        process::loads(load, content) <==> {
            &&& forall|data: Vec<u8>|
                data@ == content ==> #[trigger] call_requires(load, (data,))
            &&& forall|data: Vec<u8>, program: UserProgram|
                data@ == content && #[trigger] call_ensures(load, (data,), program)
                    ==> program.memory_set.wf()
        },
{
}

/// What is handed to the loader is the whole file that the first entry of the root directory with
/// the name stands for: as many bytes as its size, each of them the one that a read at its offset
/// gives. There is no such file exactly if no entry has the name.
pub proof fn open_effect(s: KernelView, fs: FsView, root: &Inode, path: usize)
    requires
        fs.wf(),
        process::may_open(s, fs, root, path),
    ensures
        ({
            let dir = fs.files[root.index(fs)];
            let name = process::path_name(s, path);
            let app = process::app_data(s, fs, root, path);
            &&& app is None <==> forall|k: int|
                0 <= k < dir.size as int / 32 ==> (#[trigger] dir.entries()[k]).name != name
            &&& app matches Some(data) ==> exists|k: int|
                {
                    let entry = #[trigger] dir.entries()[k];
                    let file = fs.files[entry.inode_id as int];
                    &&& 0 <= k < dir.size as int / 32
                    &&& entry.name == name
                    &&& forall|j: int| 0 <= j < k ==> (#[trigger] dir.entries()[j]).name != name
                    &&& entry.inode_id < fs.files.len()
                    &&& data.len() == file.size
                    &&& forall|b: int|
                        0 <= b < file.size ==> #[trigger] data[b] == file.raw[b] && model::read_len(
                            file.size as int,
                            b,
                            1,
                        ) == 1 && seqs::splice(
                            seq![0u8],
                            0,
                            seqs::window(file.content(), b, 1),
                        )[0] == data[b]
                }
        }),
{
    let dir = root.file(fs);
    let name = process::path_name(s, path);
    model::lemma_position(dir, name);
    let k = dir.position(name);
    if dir.has(name) {
        let entry = dir.entries()[k];
        assert(entry.name == name);
        assert(fs.files[entry.inode_id as int].wf());
    }
}

} // verus!
