//! The file layer and the process calls of a small teaching kernel: inodes with names and hard
//! links on an inode file system, and processes with address spaces of pages.
//!
//! `vfs` holds the operations on inodes and `shared` the same operations behind a lock; `process`
//! holds the system calls. What each of them does, byte by byte and entry by entry, stands in
//! `fs_effects` and `process_effects`; what holds of several of them together stands in `fs_laws`
//! and `process_laws`.
use vstd::prelude::*;

pub mod bitmap;
pub mod dirent;
pub mod efs;
pub mod fs_effects;
pub mod fs_laws;
pub mod layout;
pub mod memory;
pub mod model;
pub mod process;
pub mod process_effects;
pub mod process_laws;
pub mod processes;
pub mod seqs;
pub mod shared;
pub mod task;
pub mod vfs;
pub mod words;

verus! {

} // verus!
