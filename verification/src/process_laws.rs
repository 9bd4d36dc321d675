//! What holds of the system calls taken together.
use crate::memory;
use crate::memory::{MapPermission, MemoryView, PAGE_SIZE};
use crate::process;
use crate::processes;
use crate::processes::{KernelView, TaskStatus, TaskView, INITPROC};
use crate::seqs;
use crate::words;
use vstd::prelude::*;

verus! {

/// A fork makes a child with a number that no process had. The child is a copy of its parent but
/// for the register in which it gets the result zero, and waits behind all others. The parent
/// has one child more and is otherwise as before, and so are all other processes.
pub proof fn fork_copies(s: KernelView)
    requires
        s.wf(),
        s.current is Some,
        s.can_fork(),
    ensures
        ({
            let c = s.next_pid() as int;
            let p = s.pid() as int;
            let t = process::after_fork(s);
            &&& t.wf()
            &&& !s.live(c)
            &&& t.live(c)
            &&& t.task(c).memory == s.running().memory
            &&& t.task(c).sepc == s.running().sepc
            &&& t.task(c).x.len() == 32
            &&& t.task(c).x[10] == 0
            &&& forall|r: int|
                0 <= r < 32 && r != 10 ==> #[trigger] t.task(c).x[r] == s.running().x[r]
            &&& t.task(c).parent == Some(s.pid())
            &&& t.task(c).children.len() == 0
            &&& t.ready == s.ready.push(c as usize)
            &&& t.current == s.current
            &&& t.running() == (TaskView {
                children: s.running().children.push(c as usize),
                ..s.running()
            })
            &&& forall|q: int|
                s.live(q) && q != p ==> #[trigger] t.live(q) && t.task(q) == s.task(q)
        }),
{
    let c = s.next_pid() as int;
    let f = s.forked();
    processes::forked_wf(s);
    assert(s.live(s.pid() as int));
    let task = TaskView { x: f.task(c).x.update(10, 0), ..f.task(c) };
    processes::same_family_wf(f, c, task);
    processes::queued_wf(f.with_task(c, task), c as usize);
}

/// Whether there is a child that is asked for, and whether one of those has ended, is what
/// `has_asked` and `awaited` say.
pub proof fn wait_cases(s: KernelView, pid: isize)
    ensures
        process::has_asked(s, pid) <==> exists|i: int|
            0 <= i < s.running().children.len() && processes::asks_for(
                pid,
                #[trigger] s.running().children[i],
            ),
        process::awaited(s, pid) < s.running().children.len() <==> exists|i: int|
            0 <= i < s.running().children.len() && processes::asks_for(
                pid,
                #[trigger] s.running().children[i],
            ) && s.task(s.running().children[i] as int).status == TaskStatus::Zombie,
        process::awaited(s, pid) < s.running().children.len() ==> process::has_asked(s, pid),
{
    let kids = s.running().children;
    let a = processes::asked(pid);
    let z = processes::asked_zombie(s, pid);
    seqs::lemma_first_index(kids, a);
    seqs::lemma_first_index(kids, z);
    let i = seqs::first_index(kids, a);
    let j = seqs::first_index(kids, z);
    if i < kids.len() {
        assert(a(kids[i]));
        assert(processes::asks_for(pid, s.running().children[i]));
    }
    if j < kids.len() {
        assert(z(kids[j]));
        assert(processes::asks_for(pid, s.running().children[j]));
        assert(a(kids[j]));
    }
    assert forall|k: int| 0 <= k < kids.len() && !(i < kids.len()) implies !processes::asks_for(
        pid,
        #[trigger] s.running().children[k],
    ) by {
        assert(!a(kids[k]));
    }
    assert forall|k: int|
        0 <= k < kids.len() && !(j < kids.len()) && processes::asks_for(
            pid,
            #[trigger] s.running().children[k],
        ) implies s.task(kids[k] as int).status != TaskStatus::Zombie by {
        assert(!z(kids[k]));
    }
}

/// A wait for a child by its number, once the child has ended, gets that child.
pub proof fn wait_gets_child(s: KernelView, i: int, pid: isize)
    requires
        s.wf(),
        s.current is Some,
        0 <= i < s.running().children.len(),
        s.task(s.running().children[i] as int).status == TaskStatus::Zombie,
        pid >= 0,
        pid == s.running().children[i],
    ensures
        process::has_asked(s, pid),
        process::awaited(s, pid) == i,
{
    let kids = s.running().children;
    let z = processes::asked_zombie(s, pid);
    assert(s.live(s.pid() as int));
    assert(pid as usize == kids[i]);
    assert forall|j: int| 0 <= j < i implies !z(#[trigger] kids[j]) by {
        assert(kids[j] != kids[i]);
    }
    assert(z(kids[i]));
    seqs::lemma_first_index_is(kids, z, i);
    wait_cases(s, pid);
}

/// A child that was waited for is gone: its number is free for the next process, and a second
/// wait for it finds no such child.
pub proof fn waited_child_is_gone(s: KernelView, i: int, pid: isize, exit_code_ptr: usize)
    requires
        s.wf(),
        s.current is Some,
        0 <= i < s.running().children.len(),
        s.task(s.running().children[i] as int).status == TaskStatus::Zombie,
        pid >= 0,
        pid == s.running().children[i],
    ensures
        !process::after_wait(s, i, exit_code_ptr).live(pid as int),
        process::after_wait(s, i, exit_code_ptr).next_pid() == pid,
        !process::has_asked(process::after_wait(s, i, exit_code_ptr), pid),
{
    let kids = s.running().children;
    let c = kids[i];
    let t = process::after_wait(s, i, exit_code_ptr);
    assert(s.live(s.pid() as int));
    processes::reaped_wf(s, i);
    assert(s.task(s.pid() as int).children[i] == c);
    assert(c != s.pid());
    let left = t.running().children;
    assert(left =~= kids.remove(i));
    assert forall|j: int| 0 <= j < left.len() implies !processes::asked(pid)(
        #[trigger] left[j],
    ) by {
        let was = if j < i {
            j
        } else {
            j + 1
        };
        assert(left[j] == kids[was]);
        assert(kids[was] != kids[i]);
    }
    seqs::lemma_first_index_is(left, processes::asked(pid), left.len() as int);
}

/// A process that ends keeps its exit code for its parent, which has it among its children as
/// before. The children of the process are then children of the init process.
pub proof fn exit_keeps_code(s: KernelView, exit_code: i32)
    requires
        s.wf(),
        s.current is Some,
        s.pid() != INITPROC,
        s.running().parent is Some,
    ensures
        ({
            let t = s.exited(exit_code);
            let c = s.pid() as int;
            let p = s.running().parent->0 as int;
            &&& t.live(c)
            &&& t.task(c).status == TaskStatus::Zombie
            &&& t.task(c).exit_code == exit_code
            &&& t.task(c).parent == s.running().parent
            &&& t.live(p)
            &&& t.task(p).children.contains(c as usize)
            &&& forall|i: int|
                0 <= i < s.running().children.len() ==> {
                    let child = #[trigger] s.running().children[i];
                    &&& t.task(child as int).parent == Some(INITPROC)
                    &&& t.task(INITPROC as int).children.contains(child)
                }
        }),
{
    let t = s.exited(exit_code);
    let c = s.pid() as int;
    processes::exited_wf(s, exit_code);
    assert(s.live(c));
    if s.ready.len() > 0 {
        assert(s.live(s.ready[0] as int));
        assert(s.task(s.ready[0] as int).status == TaskStatus::Ready);
    }
    let kids = s.running().children;
    assert forall|i: int| 0 <= i < kids.len() implies {
        let child = #[trigger] s.running().children[i];
        &&& t.task(child as int).parent == Some(INITPROC)
        &&& t.task(INITPROC as int).children.contains(child)
    } by {
        let child = kids[i];
        assert(s.task(c).children[i] == child);
        assert(s.live(child as int));
        assert(kids.contains(child));
        assert(t.live(child as int));
    }
    assert(t.live(c));
}

/// A child that `spawn` could not find a program for is still there: a wait for it finds that it
/// has not ended, and it does not wait for its turn.
pub proof fn failed_spawn_leaves_child(s: KernelView, pid: isize)
    requires
        s.wf(),
        s.current is Some,
        s.can_fork(),
        pid >= 0,
        pid == s.next_pid(),
    ensures
        process::has_asked(s.forked(), pid),
        process::awaited(s.forked(), pid) == s.forked().running().children.len(),
        !s.forked().ready.contains(s.next_pid()),
{
    let t = s.forked();
    let c = s.next_pid();
    processes::forked_wf(s);
    assert(s.live(s.pid() as int));
    let kids = t.running().children;
    assert(kids[kids.len() - 1] == c);
    assert(pid as usize == c);
    assert(processes::asks_for(pid, t.running().children[kids.len() - 1]));
    wait_cases(t, pid);
    seqs::lemma_first_index(kids, processes::asked_zombie(t, pid));
    let j = process::awaited(t, pid);
    if j < kids.len() {
        assert(processes::asked_zombie(t, pid)(kids[j]));
        assert(kids[j] == c);
        assert(t.task(c as int).status == TaskStatus::Ready);
    }
}

/// A process that yields while no other process waits goes on; nothing changes.
pub proof fn yield_alone(s: KernelView)
    requires
        s.wf(),
        s.current is Some,
        s.ready.len() == 0,
    ensures
        s.suspended() == s,
{
    let p = s.pid() as int;
    assert(s.live(p));
    let t = s.suspended();
    assert(s.ready.push(s.pid())[0] == p);
    assert(t.tasks[p]->0 =~= s.running());
    assert(t.tasks =~= s.tasks);
    assert(t.ready =~= s.ready);
    assert(t =~= s);
}

/// A process that yields while others wait lets the first of them run and waits behind the rest.
pub proof fn yield_order(s: KernelView)
    requires
        s.wf(),
        s.current is Some,
        s.ready.len() > 0,
    ensures
        s.suspended().current == Some(s.ready[0]),
        s.suspended().ready == s.ready.skip(1).push(s.pid()),
{
    assert(s.ready.push(s.pid()).skip(1) =~= s.ready.skip(1).push(s.pid()));
}

/// Executing a program leaves a process its number, its parent and its children.
pub proof fn exec_keeps_family(
    s: KernelView,
    memory: MemoryView,
    user_sp: usize,
    entry: usize,
)
    requires
        s.wf(),
        s.current is Some,
    ensures
        ({
            let t = s.with_task(s.pid() as int, s.running().executing(memory, user_sp, entry));
            &&& t.wf()
            &&& t.current == s.current
            &&& t.running().parent == s.running().parent
            &&& t.running().children == s.running().children
        }),
{
    assert(s.live(s.pid() as int));
    processes::same_family_wf(
        s,
        s.pid() as int,
        s.running().executing(memory, user_sp, entry),
    );
}

/// Pages that were mapped can be unmapped, which leaves the pages that were mapped before. Until
/// then they cannot be mapped again, and afterwards they cannot be unmapped again.
pub proof fn munmap_undoes_mmap(m: MemoryView, start: int, end: int, perm: MapPermission)
    requires
        m.none_mapped(start, end),
    ensures
        m.with_area(start, end, perm).all_mapped(start, end),
        m.with_area(start, end, perm).without_pages(start, end).pages == m.pages,
        start < end ==> !m.with_area(start, end, perm).none_mapped(start, end),
        start < end ==> !m.with_area(start, end, perm).without_pages(start, end).all_mapped(
            start,
            end,
        ),
        m.with_area(start, end, perm).without_pages(start, end).none_mapped(start, end),
{
    let a = m.with_area(start, end, perm);
    let u = a.without_pages(start, end);
    if start < end {
        assert(a.pages.contains_key(start));
        assert(!u.pages.contains_key(start));
    }
    assert(u.pages =~= m.pages);
}

/// Mapping an area leaves every page that was mapped as it is; the new pages are zero and have
/// the permissions asked for.
pub proof fn mmap_adds_pages(m: MemoryView, start: int, end: int, perm: MapPermission, v: int)
    requires
        m.none_mapped(start, end),
    ensures
        m.pages.contains_key(v) ==> m.with_area(start, end, perm).pages.contains_key(v) && m.with_area(
            start,
            end,
            perm,
        ).pages[v] == m.pages[v],
        start <= v < end ==> m.with_area(start, end, perm).pages.contains_key(v) && m.with_area(
            start,
            end,
            perm,
        ).pages[v] == memory::zero_page(perm),
{
}

/// Whether all mapped pages are whole.
pub open spec fn pages_whole(m: MemoryView) -> bool {
    forall|v: int| #[trigger] m.pages.contains_key(v) ==> m.pages[v].bytes.len() == PAGE_SIZE
}

/// Bytes that were written to user memory read back, also across the end of a page; all other
/// bytes are as before.
pub proof fn user_write_reads_back(m: MemoryView, addr: int, bytes: Seq<u8>, a: int)
    requires
        pages_whole(m),
        m.pages.contains_key(memory::page_floor(a)),
    ensures
        m.with_bytes(addr, bytes).pages.contains_key(memory::page_floor(a)),
        m.with_bytes(addr, bytes).byte(a) == if addr <= a < addr + bytes.len() {
            bytes[a - addr]
        } else {
            m.byte(a)
        },
{
}

/// A name that was written to user memory, with a zero byte behind it, is the name that stands
/// there for a system call that is handed its address.
pub proof fn name_reads_back(m: MemoryView, addr: int, name: Seq<u8>)
    requires
        pages_whole(m),
        m.mapped(addr, name.len() as int + 1),
        addr + name.len() <= usize::MAX,
        forall|i: int| 0 <= i < name.len() ==> #[trigger] name[i] != 0,
    ensures
        m.with_bytes(addr, name.push(0)).has_cstring(addr),
        m.with_bytes(addr, name.push(0)).cstring(addr) == name.map_values(|b: u8| b as char),
{
    let n = name.len() as int;
    let bytes = name.push(0);
    let t = m.with_bytes(addr, bytes);
    assert forall|a: int| addr <= a < addr + n + 1 implies #[trigger] t.byte(a) == bytes[a
        - addr] by {
        assert(m.pages.contains_key(memory::page_floor(a)));
        user_write_reads_back(m, addr, bytes, a);
    }
    assert(t.mapped(addr, n + 1)) by {
        assert forall|a: int| addr <= a < addr + n + 1 implies t.pages.contains_key(
            #[trigger] memory::page_floor(a),
        ) by {
            assert(m.pages.contains_key(memory::page_floor(a)));
        }
    }
    assert(t.byte(addr + n) == 0);
    assert forall|a: int| addr <= a < addr + n implies #[trigger] t.byte(a) != 0 by {
        assert(name[a - addr] != 0);
    }
    memory::string_is(t, addr, n);
    assert(t.string(addr, n) =~= name.map_values(|b: u8| b as char));
}

/// A process that asked for the time finds the seconds and the microseconds where it asked for
/// them, also where they lie on two pages.
pub proof fn time_reads_back(m: MemoryView, ts: int, ms: usize)
    requires
        pages_whole(m),
        m.mapped(ts, process::TIMEVAL_SZ as int),
    ensures
        ({
            let t = m.with_bytes(ts, process::time_at(ms).bytes());
            &&& words::le_number(Seq::new(8, |i: int| t.byte(ts + i))) == ms / 1000
            &&& words::le_number(Seq::new(8, |i: int| t.byte(ts + 8 + i))) == (ms % 1000) * 1000
        }),
{
    let time = process::time_at(ms);
    let t = m.with_bytes(ts, time.bytes());
    assert(words::byte_range(8) == 0x1_0000_0000_0000_0000) by {
        reveal_with_fuel(words::byte_range, 9);
    }
    words::le_roundtrip(time.sec as nat, 8);
    words::le_roundtrip(time.usec as nat, 8);
    assert forall|a: int| ts <= a < ts + 16 implies #[trigger] t.byte(a) == time.bytes()[a
        - ts] by {
        assert(m.pages.contains_key(memory::page_floor(a)));
        user_write_reads_back(m, ts, time.bytes(), a);
    }
    assert(Seq::new(8, |i: int| t.byte(ts + i)) =~= words::le_bytes(time.sec as nat, 8));
    assert(Seq::new(8, |i: int| t.byte(ts + 8 + i)) =~= words::le_bytes(time.usec as nat, 8));
}

/// A process that waited for a child finds the exit code where it asked for it.
pub proof fn exit_code_reads_back(m: MemoryView, exit_code_ptr: int, exit_code: i32)
    requires
        pages_whole(m),
        m.mapped(exit_code_ptr, 4),
    ensures
        words::le_number(
            Seq::new(
                4,
                |i: int|
                    m.with_bytes(exit_code_ptr, process::exit_code_bytes(exit_code)).byte(
                        exit_code_ptr + i,
                    ),
            ),
        ) == exit_code as u32,
{
    let bytes = process::exit_code_bytes(exit_code);
    let t = m.with_bytes(exit_code_ptr, bytes);
    assert(words::byte_range(4) == 0x1_0000_0000) by {
        reveal_with_fuel(words::byte_range, 5);
    }
    words::le_roundtrip(exit_code as u32 as nat, 4);
    assert forall|a: int| exit_code_ptr <= a < exit_code_ptr + 4 implies #[trigger] t.byte(a)
        == bytes[a - exit_code_ptr] by {
        assert(m.pages.contains_key(memory::page_floor(a)));
        user_write_reads_back(m, exit_code_ptr, bytes, a);
    }
    assert(Seq::new(4, |i: int| t.byte(exit_code_ptr + i)) =~= bytes);
}

/// A heap whose area reaches to its end, and which grew and then shrank by the same number of bytes,
/// ends where it ended, and the process has the pages that it had.
pub proof fn sbrk_undone(t: TaskView, size: int)
    requires
        size > 0,
        processes::can_change_brk(t, size),
        processes::brk_changes(t, size),
        t.heap_bottom <= t.program_brk,
        t.memory.areas[t.memory.area_at(memory::page_floor(t.heap_bottom as int))].end.0
            == memory::page_ceil(t.program_brk as int),
    ensures
        ({
            let u = processes::brk_changed(t, size);
            &&& processes::can_change_brk(u, -size)
            &&& processes::brk_changes(u, -size)
            &&& processes::brk_changed(u, -size) == t
        }),
{
    let k = t.memory.area_at(memory::page_floor(t.heap_bottom as int));
    let u = processes::brk_changed(t, size);
    let p = memory::starts_at(memory::page_floor(t.heap_bottom as int));
    seqs::lemma_first_index(t.memory.areas, p);
    assert(p(t.memory.areas[k]));
    assert forall|j: int| 0 <= j < k implies !p(#[trigger] u.memory.areas[j]) by {
        assert(!p(t.memory.areas[j]));
    }
    assert(p(u.memory.areas[k]));
    seqs::lemma_first_index_is(u.memory.areas, p, k);
    let w = processes::brk_changed(u, -size);
    assert(w.memory.pages =~= t.memory.pages);
    assert(w.memory.areas =~= t.memory.areas);
    assert(w =~= t);
}

} // verus!
