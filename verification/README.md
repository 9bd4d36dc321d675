# rcore

The file layer and the process calls of a small teaching kernel, verified with Verus.

- `src/vfs.rs`: inodes of a file system. Names in a directory, hard links, contents.
- `src/shared.rs`: the same operations on a file system behind a spin lock.
- `src/process.rs`: the system calls on processes: fork, exec, spawn, wait, exit, yield, the time,
  mapped memory and the heap.
- `src/efs.rs`, `layout.rs`, `bitmap.rs`, `dirent.rs`, `model.rs`: what an inode file system is.
- `src/task.rs`, `processes.rs`, `memory.rs`, `words.rs`: processes, address spaces and what stands
  in them.
- `src/fs_laws.rs`, `src/process_laws.rs`: what holds of several operations together.
- `app/`: the block device, the clock and the loader around the library. It tests what a function
  requires before it calls it.

What is trusted, and not proved, is marked where it stands: the lock of the `spin` crate in
`shared.rs`, `String::from_utf8` in `dirent.rs` and `String::push` in `memory.rs`.
