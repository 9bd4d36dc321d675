//! The system calls that manage processes.
use crate::efs;
use crate::efs::{EasyFileSystem, FsView};
use crate::memory;
use crate::memory::{MapPermission, VirtAddr, PAGE_SIZE};
use crate::model;
use crate::processes;
use crate::processes::{KernelView, TaskView, INITPROC};
use crate::seqs;
use crate::task::{Kernel, UserProgram};
use crate::vfs::Inode;
use crate::words;
use vstd::prelude::*;
use vstd::utf8::*;

verus! {

/// A point in time, in seconds and microseconds.
#[derive(Debug)]
pub struct TimeVal {
    pub sec: usize,
    pub usec: usize,
}

/// The bytes of a `TimeVal`.
pub const TIMEVAL_SZ: usize = 16;

impl TimeVal {
    /// How the value stands in memory: the seconds in eight bytes, then the microseconds in
    /// eight bytes.
    pub open spec fn bytes(self) -> Seq<u8> {
        words::le_bytes(self.sec as nat, 8) + words::le_bytes(self.usec as nat, 8)
    }
}

/// The point in time `ms` milliseconds after zero.
pub open spec fn time_at(ms: usize) -> TimeVal {
    TimeVal { sec: (ms / 1000) as usize, usec: ((ms % 1000) * 1000) as usize }
}

/// How an exit code stands in memory.
pub open spec fn exit_code_bytes(exit_code: i32) -> Seq<u8> {
    words::le_bytes(exit_code as u32 as nat, 4)
}

/// Whether the bits of `port` are a choice of permissions: reading, writing and executing, at
/// least one of them and nothing else.
pub open spec fn port_valid(port: int) -> bool {
    1 <= port <= 7
}

/// The permissions that the bits of `port` stand for, for user mode.
pub open spec fn port_permission(port: int) -> MapPermission {
    MapPermission {
        readable: port % 2 == 1,
        writable: port / 2 % 2 == 1,
        executable: port / 4 % 2 == 1,
        user: true,
    }
}

/// Ends the process that runs with the given exit code. The next process runs.
pub fn sys_exit(kernel: &mut Kernel, exit_code: i32)
    requires
        old(kernel).wf(),
        old(kernel)@.current is Some,
        old(kernel)@.pid() != INITPROC,
    ensures
        final(kernel).wf(),
        final(kernel)@ == old(kernel)@.exited(exit_code),
{
    kernel.exit_current_and_run_next(exit_code);
}

/// Lets the next process run; the one that calls goes on when its turn comes again, and then
/// gets zero.
pub fn sys_yield(kernel: &mut Kernel) -> (code: isize)
    requires
        old(kernel).wf(),
        old(kernel)@.current is Some,
    ensures
        code == 0,
        final(kernel).wf(),
        final(kernel)@ == old(kernel)@.suspended(),
{
    kernel.suspend_current_and_run_next();
    0
}

/// The number of the process that runs.
pub fn sys_getpid(kernel: &Kernel) -> (pid: isize)
    requires
        kernel.wf(),
        kernel@.current is Some,
    ensures
        pid == kernel@.pid() as isize,
{
    kernel.current_pid().unwrap() as isize
}

/// The processes after a fork: the child, for which the call returns zero, waits behind the
/// others.
pub open spec fn after_fork(s: KernelView) -> KernelView {
    let child = s.next_pid();
    let t = s.forked();
    t.with_task(
        child as int,
        TaskView { x: t.task(child as int).x.update(10, 0), ..t.task(child as int) },
    ).queued(child)
}

/// Creates a child that is a copy of the process that runs, and gives its number. For the child
/// the call returns zero.
pub fn sys_fork(kernel: &mut Kernel) -> (pid: isize)
    requires
        old(kernel).wf(),
        old(kernel)@.current is Some,
        old(kernel)@.can_fork(),
    ensures
        final(kernel).wf(),
        pid == old(kernel)@.next_pid() as isize,
        final(kernel)@ == after_fork(old(kernel)@),
{
    let new_pid: usize = kernel.fork();
    kernel.clear_return_value(new_pid);
    kernel.add_task(new_pid);
    new_pid as isize
}

/// All bytes of a file.
fn read_all(inode: &Inode, fs: &EasyFileSystem) -> (data: Vec<u8>)
    requires
        fs.wf(),
        inode.valid(fs@),
    ensures
        data@ == inode.file(fs@).content(),
{
    proof {
        fs.lemma_view_wf();
    }
    let ghost content = inode.file(fs@).content();
    let mut data: Vec<u8> = Vec::new();
    let mut buffer: Vec<u8> = Vec::new();
    let mut b: usize = 0;
    while b < model::BLOCK_SZ
        invariant
            b <= model::BLOCK_SZ,
            buffer@.len() == b,
        decreases model::BLOCK_SZ - b,
    {
        buffer.push(0);
        b = b + 1;
    }
    assert(data@ =~= content.take(0));
    loop
        invariant
            fs.wf(),
            inode.valid(fs@),
            content == inode.file(fs@).content(),
            content.len() == inode.file(fs@).size,
            buffer@.len() == model::BLOCK_SZ,
            data@.len() <= content.len(),
            data@ == content.take(data@.len() as int),
        ensures
            data@ == content,
        decreases content.len() - data@.len(),
    {
        let offset: usize = data.len();
        let len = inode.read_at(fs, offset, buffer.as_mut_slice());
        if len == 0 {
            assert(data@ =~= content);
            break;
        }
        let mut i: usize = 0;
        while i < len
            invariant
                i <= len <= buffer@.len(),
                offset + len <= content.len(),
                forall|j: int| 0 <= j < len ==> buffer@[j] == content[offset + j],
                data@ == content.take(offset + i),
            decreases len - i,
        {
            data.push(buffer[i]);
            i = i + 1;
            assert(data@ =~= content.take(offset + i));
        }
    }
    data
}

/// The name that stands in the memory of the process that runs at address `path`.
pub open spec fn path_name(s: KernelView, path: usize) -> Seq<u8> {
    encode_utf8(s.running().memory.cstring(path as int))
}

/// Whether the file named at address `path` can be asked for: a name stands there, and the root
/// directory has no such name or one of an inode of the file system.
pub open spec fn may_open(s: KernelView, fs: FsView, root: &Inode, path: usize) -> bool {
    &&& s.running().memory.has_cstring(path as int)
    &&& root.is_directory(fs)
    &&& root.file(fs).lookup(path_name(s, path)) matches Some(inode_id) ==> inode_id
        < fs.files.len()
}

/// The contents of the file named at address `path`, or `None` if the root directory does not
/// have the name.
pub open spec fn app_data(s: KernelView, fs: FsView, root: &Inode, path: usize) -> Option<
    Seq<u8>,
> {
    match root.file(fs).lookup(path_name(s, path)) {
        Some(inode_id) => Some(fs.files[inode_id as int].content()),
        None => None,
    }
}

/// Whether the file named at address `path` can be asked for.
pub fn can_open_app(kernel: &Kernel, fs: &EasyFileSystem, root: &Inode, path: usize) -> (yes: bool)
    requires
        kernel.wf(),
        kernel@.current is Some,
        fs.wf(),
    ensures
        yes == may_open(kernel@, fs@, root, path),
{
    if !kernel.memory().has_string(path) || !root.is_dir(fs) {
        return false;
    }
    let name = kernel.memory().read_string(path);
    match root.find(fs, name.as_str()) {
        Some(inode) => inode.get_inode_id() < fs.inode_count(),
        None => true,
    }
}

/// The contents of the file named at address `path`, or `None` if the root directory does not
/// have the name.
pub fn open_app(kernel: &Kernel, fs: &EasyFileSystem, root: &Inode, path: usize) -> (data: Option<
    Vec<u8>,
>)
    requires
        kernel.wf(),
        kernel@.current is Some,
        fs.wf(),
        may_open(kernel@, fs@, root, path),
    ensures
        match app_data(kernel@, fs@, root, path) {
            Some(content) => data matches Some(bytes) && bytes@ == content,
            None => data is None,
        },
{
    let name = kernel.memory().read_string(path);
    match root.find(fs, name.as_str()) {
        Some(inode) => {
            proof {
                let id = root.file(fs@).lookup(encode_utf8(name@))->0;
                efs::inode_pos_roundtrip(fs@, id as int);
            }
            Some(read_all(&inode, fs))
        },
        None => None,
    }
}

/// The processes after the one that runs executed a program.
pub open spec fn after_exec(s: KernelView, program: UserProgram) -> KernelView {
    s.with_task(
        s.pid() as int,
        s.running().executing(program.memory_set@, program.user_sp, program.entry_point),
    )
}

/// Puts a program in place of what the process that runs ran, if there is a program.
pub fn exec_app(kernel: &mut Kernel, app: Option<UserProgram>) -> (code: isize)
    requires
        old(kernel).wf(),
        old(kernel)@.current is Some,
        app matches Some(program) ==> program.memory_set.wf(),
    ensures
        final(kernel).wf(),
        match app {
            Some(program) => {
                &&& code == 0
                &&& final(kernel)@ == after_exec(old(kernel)@, program)
            },
            None => code == -1 && final(kernel)@ == old(kernel)@,
        },
{
    proof {
        kernel.lemma_view_wf();
        assert(kernel@.live(kernel@.pid() as int));
    }
    match app {
        Some(program) => {
            kernel.exec(kernel.current_pid().unwrap(), program);
            0
        },
        None => -1,
    }
}

/// Whether `load` makes a program of the bytes of a file: it takes them, and the address space of
/// the program that it gives is in order.
pub open spec fn loads<F: Fn(Vec<u8>) -> UserProgram>(load: F, content: Seq<u8>) -> bool {
    &&& forall|data: Vec<u8>| data@ == content ==> #[trigger] call_requires(load, (data,))
    &&& forall|data: Vec<u8>, program: UserProgram|
        data@ == content && #[trigger] call_ensures(load, (data,), program)
            ==> program.memory_set.wf()
}

/// Puts the program named at address `path`, which `load` makes of the file of that name, in
/// place of what the process that runs ran. Fails if there is no file of that name.
pub fn sys_exec<F: Fn(Vec<u8>) -> UserProgram>(
    kernel: &mut Kernel,
    fs: &EasyFileSystem,
    root: &Inode,
    path: usize,
    load: F,
) -> (code: isize)
    requires
        old(kernel).wf(),
        old(kernel)@.current is Some,
        fs.wf(),
        may_open(old(kernel)@, fs@, root, path),
        app_data(old(kernel)@, fs@, root, path) matches Some(content) ==> loads(load, content),
    ensures
        final(kernel).wf(),
        match app_data(old(kernel)@, fs@, root, path) {
            Some(content) => {
                &&& code == 0
                &&& exists|data: Vec<u8>, program: UserProgram|
                    data@ == content && #[trigger] call_ensures(load, (data,), program)
                        && final(kernel)@ == after_exec(old(kernel)@, program)
            },
            None => code == -1 && final(kernel)@ == old(kernel)@,
        },
{
    match open_app(kernel, fs, root, path) {
        Some(data) => exec_app(kernel, Some(load(data))),
        None => exec_app(kernel, None),
    }
}

/// The index of the child that a wait for `pid` gets: the first child asked for that has ended,
/// or the number of children if there is none.
pub open spec fn awaited(s: KernelView, pid: isize) -> int {
    seqs::first_index(s.running().children, processes::asked_zombie(s, pid))
}

/// Whether the process that runs has a child that is asked for.
pub open spec fn has_asked(s: KernelView, pid: isize) -> bool {
    seqs::first_index(s.running().children, processes::asked(pid)) < s.running().children.len()
}

/// The processes after child `i` of the one that runs was waited for, and its exit code written
/// to address `exit_code_ptr`.
pub open spec fn after_wait(s: KernelView, i: int, exit_code_ptr: usize) -> KernelView {
    s.reaped(i).with_memory(
        s.running().memory.with_bytes(
            exit_code_ptr as int,
            exit_code_bytes(s.task(s.running().children[i] as int).exit_code),
        ),
    )
}

/// Whether `sys_waitpid` can be asked: if it gets a child, the exit code can be written to
/// `exit_code_ptr`.
pub fn can_waitpid(kernel: &Kernel, pid: isize, exit_code_ptr: usize) -> (yes: bool)
    requires
        kernel.wf(),
        kernel@.current is Some,
    ensures
        yes == (awaited(kernel@, pid) < kernel@.running().children.len() ==> {
            &&& kernel@.running().memory.mapped(exit_code_ptr as int, 4)
            &&& exit_code_ptr % 4 == 0
            &&& exit_code_ptr + 4 <= usize::MAX
        }),
{
    if kernel.find_zombie(pid).is_none() {
        return true;
    }
    exit_code_ptr % 4 == 0 && exit_code_ptr <= usize::MAX - 4 && kernel.memory().is_mapped(
        exit_code_ptr,
        4,
    )
}

/// Waits for child `pid` of the process that runs, or for any child if `pid` is -1.
/// If there is not a child process whose pid is same as given, return -1.
/// Else if there is a child process but it is still running, return -2.
/// Else the child is gone: its exit code is written to `exit_code_ptr`, and its number returned.
pub fn sys_waitpid(kernel: &mut Kernel, pid: isize, exit_code_ptr: usize) -> (found: isize)
    requires
        old(kernel).wf(),
        old(kernel)@.current is Some,
        awaited(old(kernel)@, pid) < old(kernel)@.running().children.len() ==> {
            &&& old(kernel)@.running().memory.mapped(exit_code_ptr as int, 4)
            &&& exit_code_ptr % 4 == 0
            &&& exit_code_ptr + 4 <= usize::MAX
        },
    ensures
        final(kernel).wf(),
        if !has_asked(old(kernel)@, pid) {
            found == -1 && final(kernel)@ == old(kernel)@
        } else if awaited(old(kernel)@, pid) == old(kernel)@.running().children.len() {
            found == -2 && final(kernel)@ == old(kernel)@
        } else {
            &&& found == old(kernel)@.running().children[awaited(old(kernel)@, pid)] as isize
            &&& final(kernel)@ == after_wait(
                old(kernel)@,
                awaited(old(kernel)@, pid),
                exit_code_ptr,
            )
        },
{
    if !kernel.has_child(pid) {
        return -1;
    }
    let ghost s = kernel@;
    match kernel.find_zombie(pid) {
        Some(i) => {
            proof {
                seqs::lemma_first_index(s.running().children, processes::asked_zombie(s, pid));
                kernel.lemma_view_wf();
                assert(s.live(s.pid() as int));
                assert(s.task(s.pid() as int).children[i as int] == s.running().children[i as int]);
            }
            let (found_pid, exit_code) = kernel.reap(i);
            let mut bytes: Vec<u8> = Vec::new();
            words::push_le_bytes(&mut bytes, exit_code as u32 as u64, 4);
            assert(bytes@ =~= exit_code_bytes(exit_code));
            proof {
                words::lemma_le_bytes_len(exit_code as u32 as nat, 4);
            }
            kernel.memory_mut().write_bytes(exit_code_ptr, bytes.as_slice());
            found_pid as isize
        },
        None => -2,
    }
}

/// Whether `sys_get_time` can be asked to write to address `ts`.
pub fn can_get_time(kernel: &Kernel, ts: usize) -> (yes: bool)
    requires
        kernel.wf(),
        kernel@.current is Some,
    ensures
        yes == (ts + TIMEVAL_SZ <= usize::MAX && kernel@.running().memory.mapped(
            ts as int,
            TIMEVAL_SZ as int,
        )),
{
    ts <= usize::MAX - TIMEVAL_SZ && kernel.memory().is_mapped(ts, TIMEVAL_SZ)
}

/// Writes the time to address `ts` in the memory of the process that runs, also where the bytes
/// lie on two pages. The time is `ms` milliseconds after zero.
pub fn sys_get_time(kernel: &mut Kernel, ts: usize, _tz: usize, ms: usize) -> (code: isize)
    requires
        old(kernel).wf(),
        old(kernel)@.current is Some,
        old(kernel)@.running().memory.mapped(ts as int, TIMEVAL_SZ as int),
        ts + TIMEVAL_SZ <= usize::MAX,
    ensures
        code == 0,
        final(kernel).wf(),
        final(kernel)@ == old(kernel)@.with_memory(
            old(kernel)@.running().memory.with_bytes(ts as int, time_at(ms).bytes()),
        ),
{
    let timeval = TimeVal { sec: ms / 1000, usec: (ms % 1000) * 1000 };
    let mut bytes: Vec<u8> = Vec::new();
    words::push_le_bytes(&mut bytes, timeval.sec as u64, 8);
    words::push_le_bytes(&mut bytes, timeval.usec as u64, 8);
    proof {
        words::lemma_le_bytes_len(timeval.sec as nat, 8);
        words::lemma_le_bytes_len(timeval.usec as nat, 8);
        assert(bytes@ =~= time_at(ms).bytes());
    }
    kernel.memory_mut().write_bytes(ts, bytes.as_slice());
    0
}

/// Maps `len` bytes of zero pages from address `start` on, for user mode and with the
/// permissions that `port` chooses. Fails if `start` is not the start of a page, if `port` is
/// no choice of permissions, or if one of the pages is mapped.
pub fn sys_mmap(kernel: &mut Kernel, start: usize, len: usize, port: usize) -> (code: isize)
    requires
        old(kernel).wf(),
        old(kernel)@.current is Some,
        start + len <= usize::MAX,
    ensures
        final(kernel).wf(),
        if start % PAGE_SIZE == 0 && port_valid(port as int)
            && old(kernel)@.running().memory.none_mapped(
            memory::page_floor(start as int),
            memory::page_ceil(start + len),
        ) {
            &&& code == 0
            &&& final(kernel)@ == old(kernel)@.with_memory(
                old(kernel)@.running().memory.with_area(
                    memory::page_floor(start as int),
                    memory::page_ceil(start + len),
                    port_permission(port as int),
                ),
            )
        } else {
            code == -1 && final(kernel)@ == old(kernel)@
        },
{
    let start_va = VirtAddr(start);
    let end_va = VirtAddr(start + len);
    if !start_va.aligned() {
        return -1;
    }
    assert(port & !0x7 != 0 <==> port >= 8) by (bit_vector);
    assert(port < 8 ==> (port & 0x7 == 0 <==> port == 0)) by (bit_vector);
    if port & !0x7 != 0 || port & 0x7 == 0 {
        return -1;
    }
    assert(port & 0x1 != 0 <==> port % 2 == 1) by (bit_vector);
    assert(port & 0x2 != 0 <==> port / 2 % 2 == 1) by (bit_vector);
    assert(port & 0x4 != 0 <==> port / 4 % 2 == 1) by (bit_vector);
    let map_permission = MapPermission {
        readable: port & 0x1 != 0,
        writable: port & 0x2 != 0,
        executable: port & 0x4 != 0,
        user: true,
    };
    let start_vpn = start_va.floor();
    let end_vpn = end_va.ceil();
    if !kernel.memory().none_mapped(start_vpn, end_vpn) {
        return -1;
    }
    kernel.memory_mut().insert_framed_area(start_va, end_va, map_permission);
    0
}

/// Unmaps `len` bytes of pages from address `start` on. Fails if `start` is not the start of a
/// page, or if one of the pages is not mapped.
pub fn sys_munmap(kernel: &mut Kernel, start: usize, len: usize) -> (code: isize)
    requires
        old(kernel).wf(),
        old(kernel)@.current is Some,
        start + len <= usize::MAX,
    ensures
        final(kernel).wf(),
        if start % PAGE_SIZE == 0 && old(kernel)@.running().memory.all_mapped(
            memory::page_floor(start as int),
            memory::page_ceil(start + len),
        ) {
            &&& code == 0
            &&& final(kernel)@ == old(kernel)@.with_memory(
                old(kernel)@.running().memory.without_pages(
                    memory::page_floor(start as int),
                    memory::page_ceil(start + len),
                ),
            )
        } else {
            code == -1 && final(kernel)@ == old(kernel)@
        },
{
    let start_va = VirtAddr(start);
    let end_va = VirtAddr(start + len);
    if !start_va.aligned() {
        return -1;
    }
    let start_vpn = start_va.floor();
    let end_vpn = end_va.ceil();
    if !kernel.memory().all_mapped(start_vpn, end_vpn) {
        return -1;
    }
    kernel.memory_mut().unmap_range(start_vpn, end_vpn);
    0
}

/// Changes the size of the data segment of the process that runs by `size` bytes, and gives
/// where it ended, or -1 if it does not change.
pub fn sys_sbrk(kernel: &mut Kernel, size: i32) -> (brk: isize)
    requires
        old(kernel).wf(),
        old(kernel)@.current is Some,
        processes::can_change_brk(old(kernel)@.running(), size as int),
    ensures
        final(kernel).wf(),
        if processes::brk_changes(old(kernel)@.running(), size as int) {
            &&& brk == old(kernel)@.running().program_brk
            &&& final(kernel)@ == old(kernel)@.with_task(
                old(kernel)@.pid() as int,
                processes::brk_changed(old(kernel)@.running(), size as int),
            )
        } else {
            brk == -1 && final(kernel)@ == old(kernel)@
        },
{
    match kernel.change_program_brk(size) {
        Some(old_brk) => old_brk as isize,
        None => -1,
    }
}

/// The processes after the one that runs got a child that runs a program, and that waits behind
/// the others.
pub open spec fn after_spawn(s: KernelView, program: UserProgram) -> KernelView {
    let child = s.next_pid();
    let t = s.forked();
    t.with_task(
        child as int,
        t.task(child as int).executing(
            program.memory_set@,
            program.user_sp,
            program.entry_point,
        ),
    ).queued(child)
}

/// Creates a child of the process that runs, which runs a program, and gives its number. If
/// there is no program, the result is -1, and the child, which then does not wait for its turn,
/// stays.
pub fn spawn_app(kernel: &mut Kernel, app: Option<UserProgram>) -> (pid: isize)
    requires
        old(kernel).wf(),
        old(kernel)@.current is Some,
        old(kernel)@.can_fork(),
        app matches Some(program) ==> program.memory_set.wf(),
    ensures
        final(kernel).wf(),
        match app {
            Some(program) => {
                &&& pid == old(kernel)@.next_pid() as isize
                &&& final(kernel)@ == after_spawn(old(kernel)@, program)
            },
            None => pid == -1 && final(kernel)@ == old(kernel)@.forked(),
        },
{
    let new_pid: usize = kernel.fork();
    match app {
        Some(program) => {
            kernel.exec(new_pid, program);
            kernel.add_task(new_pid);
            new_pid as isize
        },
        None => -1,
    }
}

/// Creates a child of the process that runs, which runs the program named at address `path`,
/// and gives its number; `load` makes the program of the file of that name. If there is no file
/// of that name, the result is -1, and the child, which then does not wait for its turn, stays.
pub fn sys_spawn<F: Fn(Vec<u8>) -> UserProgram>(
    kernel: &mut Kernel,
    fs: &EasyFileSystem,
    root: &Inode,
    path: usize,
    load: F,
) -> (pid: isize)
    requires
        old(kernel).wf(),
        old(kernel)@.current is Some,
        old(kernel)@.can_fork(),
        fs.wf(),
        may_open(old(kernel)@, fs@, root, path),
        app_data(old(kernel)@, fs@, root, path) matches Some(content) ==> loads(load, content),
    ensures
        final(kernel).wf(),
        match app_data(old(kernel)@, fs@, root, path) {
            Some(content) => {
                &&& pid == old(kernel)@.next_pid() as isize
                &&& exists|data: Vec<u8>, program: UserProgram|
                    data@ == content && #[trigger] call_ensures(load, (data,), program)
                        && final(kernel)@ == after_spawn(old(kernel)@, program)
            },
            None => pid == -1 && final(kernel)@ == old(kernel)@.forked(),
        },
{
    match open_app(kernel, fs, root, path) {
        Some(data) => spawn_app(kernel, Some(load(data))),
        None => spawn_app(kernel, None),
    }
}

/// Accepts a priority of at least two, and gives it back; any other gives -1. Nothing depends
/// on the priority.
pub fn sys_set_priority(prio: isize) -> (result: isize)
    ensures
        prio >= 2 ==> result == prio,
        prio < 2 ==> result == -1,
{
    if prio >= 2 {
        prio
    } else {
        -1
    }
}

} // verus!
