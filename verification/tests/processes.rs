use rcore::efs::EasyFileSystem;
use rcore::memory::{MapPermission, MemorySet, VirtAddr, VirtPageNum};
use rcore::process::{
    can_get_time, can_open_app, can_waitpid, exec_app, open_app, spawn_app, sys_exec, sys_exit,
    sys_fork, sys_get_time, sys_getpid, sys_mmap, sys_munmap, sys_sbrk, sys_set_priority,
    sys_spawn, sys_waitpid, sys_yield, TimeVal,
};
use rcore::task::{Kernel, UserProgram};
use rcore::vfs::Inode;

const RW: MapPermission = MapPermission {
    readable: true,
    writable: true,
    executable: false,
    user: true,
};

/// A program with the pages 1 and 2 mapped and a heap that starts at page 16.
fn program() -> UserProgram {
    let mut memory_set = MemorySet::new_bare();
    memory_set.insert_framed_area(VirtAddr(0x1000), VirtAddr(0x3000), RW);
    memory_set.insert_framed_area(VirtAddr(0x10000), VirtAddr(0x10000), RW);
    UserProgram {
        memory_set,
        user_sp: 0x10000,
        entry_point: 0x1000,
    }
}

fn kernel() -> Kernel {
    Kernel::boot(program())
}

/// The byte at an address, as the only character of the string that ends behind it.
fn byte(kernel: &Kernel, addr: usize) -> u8 {
    let mut copy = kernel.memory().duplicate();
    copy.write_bytes(addr + 1, &[0]);
    copy.read_string(addr).chars().next().map_or(0, |c| c as u8)
}

fn word(kernel: &Kernel, addr: usize, len: usize) -> u64 {
    (0..len).rev().fold(0u64, |sum, i| sum * 256 + byte(kernel, addr + i) as u64)
}

fn volume() -> (EasyFileSystem, Inode) {
    let mut fs = EasyFileSystem::new(1, 8, 16);
    let (block, offset) = fs.get_disk_inode_pos(0);
    let root = Inode::new(0, block as usize, offset);
    let app = root.create(&mut fs, "app").unwrap();
    let image: Vec<u8> = (0..700usize).map(|i| (i % 7) as u8).collect();
    app.write_at(&mut fs, 0, &image);
    (fs, root)
}

#[test]
fn init_process_runs_first() {
    let k = kernel();
    assert_eq!(sys_getpid(&k), 0);
    assert_eq!(k.current_pid(), Some(0));
}

#[test]
fn fork_gives_the_parent_the_number_of_the_child() {
    let mut k = kernel();
    assert!(k.can_fork());
    assert_eq!(sys_fork(&mut k), 1);
    assert_eq!(sys_fork(&mut k), 2);
    assert_eq!(sys_getpid(&k), 0);
    assert_eq!(sys_yield(&mut k), 0);
    assert_eq!(sys_getpid(&k), 1);
    assert_eq!(sys_yield(&mut k), 0);
    assert_eq!(sys_getpid(&k), 2);
    sys_yield(&mut k);
    assert_eq!(sys_getpid(&k), 0);
}

#[test]
fn fork_returns_zero_to_the_child() {
    let mut k = kernel();
    k.get_trap_cx().x[10] = 57;
    k.get_trap_cx().x[11] = 58;
    k.get_trap_cx().sepc = 0x1234;
    sys_fork(&mut k);
    assert_eq!(k.get_trap_cx().x[10], 57);
    sys_yield(&mut k);
    assert_eq!(sys_getpid(&k), 1);
    assert_eq!(k.get_trap_cx().x[10], 0);
    assert_eq!(k.get_trap_cx().x[11], 58);
    assert_eq!(k.get_trap_cx().sepc, 0x1234);
}

#[test]
fn yield_alone_goes_on() {
    let mut k = kernel();
    assert_eq!(sys_yield(&mut k), 0);
    assert_eq!(sys_getpid(&k), 0);
}

#[test]
fn child_has_its_own_memory() {
    let mut k = kernel();
    k.memory_mut().write_bytes(0x1000, b"ab\0");
    sys_fork(&mut k);
    k.memory_mut().write_bytes(0x1000, b"xy\0");
    sys_yield(&mut k);
    assert_eq!(k.memory().read_string(0x1000), "ab");
    sys_yield(&mut k);
    assert_eq!(k.memory().read_string(0x1000), "xy");
}

#[test]
fn wait_without_such_a_child() {
    let mut k = kernel();
    assert_eq!(sys_waitpid(&mut k, -1, 0x1000), -1);
    assert_eq!(sys_waitpid(&mut k, 1, 0x1000), -1);
    sys_fork(&mut k);
    assert_eq!(sys_waitpid(&mut k, 7, 0x1000), -1);
    assert_eq!(sys_waitpid(&mut k, -2, 0x1000), -1);
}

#[test]
fn wait_for_a_child_that_still_runs() {
    let mut k = kernel();
    sys_fork(&mut k);
    assert!(can_waitpid(&k, 1, 3));
    assert_eq!(sys_waitpid(&mut k, 1, 3), -2);
    assert_eq!(sys_waitpid(&mut k, -1, 0x1000), -2);
}

#[test]
fn wait_gets_the_exit_code() {
    let mut k = kernel();
    sys_fork(&mut k);
    sys_fork(&mut k);
    sys_yield(&mut k);
    sys_exit(&mut k, -3);
    assert_eq!(sys_getpid(&k), 2);
    sys_exit(&mut k, 9);
    assert_eq!(sys_getpid(&k), 0);
    assert!(!can_waitpid(&k, 2, 0x1001));
    assert!(!can_waitpid(&k, 2, 0x4000));
    assert!(can_waitpid(&k, 2, 0x1100));
    assert_eq!(sys_waitpid(&mut k, 2, 0x1100), 2);
    assert_eq!(word(&k, 0x1100, 4), 9);
    assert_eq!(sys_waitpid(&mut k, 2, 0x1100), -1);
    assert_eq!(sys_waitpid(&mut k, -1, 0x1104), 1);
    assert_eq!(word(&k, 0x1104, 4), (-3i32) as u32 as u64);
    assert_eq!(sys_waitpid(&mut k, -1, 0x1104), -1);
    assert_eq!(sys_fork(&mut k), 1);
    assert_eq!(sys_fork(&mut k), 2);
    assert_eq!(sys_fork(&mut k), 3);
}

#[test]
fn init_adopts_the_children_of_a_process_that_ends() {
    let mut k = kernel();
    sys_fork(&mut k);
    sys_yield(&mut k);
    assert_eq!(sys_fork(&mut k), 2);
    sys_exit(&mut k, 5);
    assert_eq!(sys_getpid(&k), 0);
    assert_eq!(sys_waitpid(&mut k, 2, 0x1000), -2);
    assert_eq!(sys_waitpid(&mut k, 1, 0x1000), 1);
    sys_yield(&mut k);
    assert_eq!(sys_getpid(&k), 2);
    sys_exit(&mut k, 6);
    assert_eq!(sys_waitpid(&mut k, -1, 0x1000), 2);
    assert_eq!(word(&k, 0x1000, 4), 6);
}

#[test]
fn time_on_one_page() {
    let mut k = kernel();
    assert!(can_get_time(&k, 0x1100));
    assert_eq!(sys_get_time(&mut k, 0x1100, 0, 12_345), 0);
    assert_eq!(word(&k, 0x1100, 8), 12);
    assert_eq!(word(&k, 0x1108, 8), 345_000);
}

#[test]
fn time_on_two_pages() {
    for start in [0x1ff8usize, 0x1ff4, 0x1fff] {
        let mut k = kernel();
        k.memory_mut().write_bytes(start - 1, &[0x55]);
        k.memory_mut().write_bytes(start + 16, &[0x66]);
        assert_eq!(sys_get_time(&mut k, start, 0, 7_001), 0);
        assert_eq!(word(&k, start, 8), 7);
        assert_eq!(word(&k, start + 8, 8), 1_000);
        assert_eq!(word(&k, start - 1, 1), 0x55);
        assert_eq!(word(&k, start + 16, 1), 0x66);
    }
    assert!(!can_get_time(&kernel(), 0x2ff8));
    assert!(!can_get_time(&kernel(), usize::MAX - 3));
}

#[test]
fn time_value_fields() {
    let t = TimeVal { sec: 1, usec: 2 };
    assert_eq!(format!("{:?}", t), "TimeVal { sec: 1, usec: 2 }");
}

#[test]
fn mmap_maps_zero_pages() {
    let mut k = kernel();
    assert_eq!(sys_mmap(&mut k, 0x4000, 4097, 3), 0);
    assert_eq!(k.memory().translate(VirtPageNum(4)), Some(RW));
    assert_eq!(k.memory().translate(VirtPageNum(5)), Some(RW));
    assert_eq!(k.memory().translate(VirtPageNum(6)), None);
    assert_eq!(word(&k, 0x4ff0, 8), 0);
    assert_eq!(sys_mmap(&mut k, 0x6000, 0, 1), 0);
    assert_eq!(k.memory().translate(VirtPageNum(6)), None);
    assert_eq!(sys_mmap(&mut k, 0x6000, 1, 4), 0);
    assert_eq!(
        k.memory().translate(VirtPageNum(6)),
        Some(MapPermission {
            readable: false,
            writable: false,
            executable: true,
            user: true
        })
    );
}

#[test]
fn mmap_refuses() {
    let mut k = kernel();
    assert_eq!(sys_mmap(&mut k, 0x4001, 10, 3), -1);
    assert_eq!(sys_mmap(&mut k, 0x4000, 10, 0), -1);
    assert_eq!(sys_mmap(&mut k, 0x4000, 10, 8), -1);
    assert_eq!(sys_mmap(&mut k, 0x4000, 10, 11), -1);
    assert_eq!(sys_mmap(&mut k, 0x2000, 10, 3), -1);
    assert_eq!(sys_mmap(&mut k, 0x0, 0x1001, 3), -1);
    assert_eq!(sys_mmap(&mut k, 0x0, 0x1000, 7), 0);
    assert_eq!(sys_mmap(&mut k, 0x0, 0x1000, 7), -1);
    assert_eq!(k.memory().translate(VirtPageNum(4)), None);
}

#[test]
fn munmap_undoes_mmap() {
    let mut k = kernel();
    assert_eq!(sys_mmap(&mut k, 0x4000, 0x3000, 3), 0);
    assert_eq!(sys_munmap(&mut k, 0x4000, 0x3001), -1);
    assert_eq!(sys_munmap(&mut k, 0x4800, 0x800), -1);
    assert_eq!(sys_munmap(&mut k, 0x5000, 0x1000), 0);
    assert_eq!(sys_munmap(&mut k, 0x5000, 0x1000), -1);
    assert_eq!(sys_munmap(&mut k, 0x4000, 0x3000), -1);
    assert_eq!(k.memory().translate(VirtPageNum(4)), Some(RW));
    assert_eq!(k.memory().translate(VirtPageNum(5)), None);
    assert_eq!(k.memory().translate(VirtPageNum(6)), Some(RW));
    assert_eq!(sys_mmap(&mut k, 0x5000, 0x1000, 1), 0);
    assert_eq!(sys_munmap(&mut k, 0x4000, 0x2fff), 0);
    assert!(k.memory().none_mapped(VirtPageNum(4), VirtPageNum(7)));
    assert_eq!(sys_munmap(&mut k, 0x9000, 0), 0);
}

#[test]
fn sbrk_moves_the_end_of_the_heap() {
    let mut k = kernel();
    assert!(k.can_change_program_brk(100));
    assert_eq!(sys_sbrk(&mut k, 100), 0x10000);
    assert!(k.memory().translate(VirtPageNum(16)).is_some());
    assert_eq!(sys_sbrk(&mut k, 4096), 0x10064);
    assert!(k.memory().translate(VirtPageNum(17)).is_some());
    assert_eq!(sys_sbrk(&mut k, 0), 0x11064);
    assert_eq!(sys_sbrk(&mut k, -4096), 0x11064);
    assert!(k.memory().translate(VirtPageNum(17)).is_none());
    assert!(k.can_change_program_brk(-101));
    assert_eq!(sys_sbrk(&mut k, -101), -1);
    assert_eq!(sys_sbrk(&mut k, -100), 0x10064);
    assert!(k.memory().translate(VirtPageNum(16)).is_none());
    assert_eq!(sys_sbrk(&mut k, 0), 0x10000);
}

#[test]
fn sbrk_without_a_heap() {
    let mut bare = program();
    bare.memory_set = MemorySet::new_bare();
    let mut k = Kernel::boot(bare);
    assert_eq!(sys_sbrk(&mut k, 10), -1);
}

#[test]
fn sbrk_cannot_grow_over_mapped_pages() {
    let mut k = kernel();
    assert_eq!(sys_mmap(&mut k, 0x11000, 1, 3), 0);
    assert!(k.can_change_program_brk(4096));
    assert!(!k.can_change_program_brk(4097));
}

#[test]
fn program_is_found_by_the_name_in_user_memory() {
    let (fs, root) = volume();
    let mut k = kernel();
    assert!(can_open_app(&k, &fs, &root, 0x2000));
    k.memory_mut().write_bytes(0x1ffe, b"app\0");
    let data = open_app(&k, &fs, &root, 0x1ffe).unwrap();
    assert_eq!(data.len(), 700);
    assert_eq!(data[699], 6);
    k.memory_mut().write_bytes(0x1ffe, b"apq\0");
    assert!(open_app(&k, &fs, &root, 0x1ffe).is_none());
    assert!(!can_open_app(&k, &fs, &root, 0x5000));
}

#[test]
fn string_must_end_in_mapped_memory() {
    let mut k = kernel();
    k.memory_mut().write_bytes(0x2ffe, b"ab");
    assert!(!k.memory().has_string(0x2ffe));
    k.memory_mut().write_bytes(0x2fff, &[0]);
    assert!(k.memory().has_string(0x2ffe));
    assert_eq!(k.memory().read_string(0x2ffe), "a");
}

#[test]
fn exec_replaces_the_program() {
    let (fs, root) = volume();
    let mut k = kernel();
    k.memory_mut().write_bytes(0x1000, b"app\0");
    let load = |data: Vec<u8>| {
        let mut p = program();
        p.memory_set.write_bytes(0x1000, &[b'0' + (data.len() / 100) as u8, 0]);
        p
    };
    k.get_trap_cx().x[11] = 58;
    k.get_trap_cx().sepc = 0x1234;
    assert_eq!(sys_exec(&mut k, &fs, &root, 0x1000, load), 0);
    assert_eq!(k.get_trap_cx().sepc, 0x1000);
    assert_eq!(k.get_trap_cx().x[2], 0x10000);
    assert_eq!(k.get_trap_cx().x[11], 0);
    assert_eq!(k.memory().read_string(0x1000), "7");
    assert_eq!(sys_getpid(&k), 0);
    assert_eq!(sys_exec(&mut k, &fs, &root, 0x1000, load), -1);
    assert_eq!(k.memory().read_string(0x1000), "7");
    assert_eq!(exec_app(&mut k, None), -1);
    assert_eq!(exec_app(&mut k, Some(program())), 0);
    assert_eq!(k.memory().read_string(0x1000), "");
}

#[test]
fn spawn_runs_a_program_in_a_child() {
    let (fs, root) = volume();
    let mut k = kernel();
    k.memory_mut().write_bytes(0x1000, b"app\0");
    let load = |data: Vec<u8>| {
        let mut p = program();
        p.memory_set.write_bytes(0x1000, &[b'0' + (data.len() / 100) as u8, 0]);
        p
    };
    assert_eq!(sys_spawn(&mut k, &fs, &root, 0x1000, load), 1);
    assert_eq!(k.memory().read_string(0x1000), "app");
    sys_yield(&mut k);
    assert_eq!(sys_getpid(&k), 1);
    assert_eq!(k.memory().read_string(0x1000), "7");
    sys_exit(&mut k, 4);
    assert_eq!(sys_waitpid(&mut k, 1, 0x1800), 1);
}

#[test]
fn spawn_without_a_program_leaves_the_child() {
    let (fs, root) = volume();
    let mut k = kernel();
    k.memory_mut().write_bytes(0x1000, b"none\0");
    assert_eq!(sys_spawn(&mut k, &fs, &root, 0x1000, |_| program()), -1);
    sys_yield(&mut k);
    assert_eq!(sys_getpid(&k), 0);
    assert_eq!(sys_waitpid(&mut k, -1, 0x1000), -2);
    assert_eq!(sys_waitpid(&mut k, 1, 0x1000), -2);
    assert_eq!(spawn_app(&mut k, None), -1);
    assert_eq!(spawn_app(&mut k, Some(program())), 3);
}

#[test]
fn priority_is_at_least_two() {
    assert_eq!(sys_set_priority(2), 2);
    assert_eq!(sys_set_priority(isize::MAX), isize::MAX);
    assert_eq!(sys_set_priority(1), -1);
    assert_eq!(sys_set_priority(0), -1);
    assert_eq!(sys_set_priority(isize::MIN), -1);
}
