//! What a file is, mathematically: its kind, its link count, its size and the bytes of the
//! blocks that it occupies; and what a directory is: a file that holds entries.
use crate::dirent;
use crate::dirent::{DirEntryView, DIRENT_SZ};
use crate::seqs;
use vstd::prelude::*;

verus! {

/// The bytes of a block.
pub const BLOCK_SZ: usize = 512;

/// The kinds of inode.
#[derive(Clone, Copy, Debug, PartialEq, Eq, Structural)]
pub enum DiskInodeType {
    File,
    Directory,
}

/// How many blocks a file of `size` bytes occupies.
pub open spec fn block_count(size: int) -> int {
    (size + BLOCK_SZ - 1) / BLOCK_SZ as int
}

/// A file.
#[verifier::ext_equal]
pub struct FileView {
    pub kind: DiskInodeType,
    /// How many names the file has.
    pub nlink: u32,
    pub size: u32,
    /// All bytes of the blocks that the file occupies: its contents, and behind them whatever
    /// the rest of the last block holds.
    pub raw: Seq<u8>,
    /// How many blocks the file has besides: those that it was cut off from and has kept.
    pub cut_off: nat,
}

/// How many bytes a read of up to `len` bytes at `offset` gets from a file of `size` bytes.
pub open spec fn read_len(size: int, offset: int, len: int) -> int {
    if offset >= size {
        0
    } else if offset + len <= size {
        len
    } else {
        size - offset
    }
}

/// The property of an entry that it has the given name.
pub open spec fn has_name(name: Seq<u8>) -> spec_fn(DirEntryView) -> bool {
    |entry: DirEntryView| entry.name == name
}

/// The property of an entry that it stands for the given inode.
pub open spec fn has_inode(inode_id: int) -> spec_fn(DirEntryView) -> bool {
    |entry: DirEntryView| entry.inode_id == inode_id
}

impl FileView {
    pub open spec fn wf(self) -> bool {
        self.raw.len() == block_count(self.size as int) * BLOCK_SZ
    }

    /// The contents of the file.
    pub open spec fn content(self) -> Seq<u8> {
        self.raw.take(self.size as int)
    }

    /// A file without contents.
    pub open spec fn fresh(kind: DiskInodeType, nlink: u32) -> FileView {
        FileView { kind, nlink, size: 0, raw: Seq::empty(), cut_off: 0 }
    }

    /// The file with another link count.
    pub open spec fn with_nlink(self, nlink: int) -> FileView {
        FileView { nlink: nlink as u32, ..self }
    }

    /// How many blocks the file has: those that it occupies, and those that it was cut off from.
    pub open spec fn owned(self) -> int {
        block_count(self.size as int) + self.cut_off
    }

    /// The file without its contents and without blocks.
    pub open spec fn cleared(self) -> FileView {
        FileView { size: 0, raw: Seq::empty(), cut_off: 0, ..self }
    }

    /// The file cut off or extended to `size` bytes. Where it is cut off it does not occupy the
    /// blocks past the new end any more, but keeps them; the blocks that it is extended by are new
    /// ones, and zero.
    pub open spec fn resized(self, size: int) -> FileView {
        FileView {
            size: size as u32,
            raw: Seq::new(
                (block_count(size) * BLOCK_SZ) as nat,
                |i: int|
                    if i < self.raw.len() {
                        self.raw[i]
                    } else {
                        0u8
                    },
            ),
            cut_off: if size < self.size {
                (self.cut_off + block_count(self.size as int) - block_count(size)) as nat
            } else {
                self.cut_off
            },
            ..self
        }
    }

    /// The file with its bytes from `offset` on overwritten.
    pub open spec fn overwritten(self, offset: int, bytes: Seq<u8>) -> FileView {
        FileView { raw: seqs::splice(self.raw, offset, bytes), ..self }
    }

    /// The file after `bytes` were written at `offset`: it ends where the bytes end.
    pub open spec fn written(self, offset: int, bytes: Seq<u8>) -> FileView {
        self.resized(offset + bytes.len()).overwritten(offset, bytes)
    }

    /// How many whole entries the file holds.
    pub open spec fn entry_count(self) -> int {
        self.size as int / DIRENT_SZ as int
    }

    /// The bytes of entry `i`.
    pub open spec fn entry_bytes(self, i: int) -> Seq<u8> {
        self.raw.subrange(i * DIRENT_SZ, i * DIRENT_SZ + DIRENT_SZ)
    }

    /// The file as a directory: the entries that it holds.
    pub open spec fn entries(self) -> Seq<DirEntryView> {
        Seq::new(
            self.entry_count() as nat,
            |i: int| dirent::decode_entry(self.entry_bytes(i)),
        )
    }

    /// The index of the first entry with the given name, or the number of entries if no entry
    /// has it.
    pub open spec fn position(self, name: Seq<u8>) -> int {
        seqs::first_index(self.entries(), has_name(name))
    }

    /// Whether an entry has the given name.
    pub open spec fn has(self, name: Seq<u8>) -> bool {
        self.position(name) < self.entry_count()
    }

    /// The inode that the first entry with the given name stands for.
    pub open spec fn lookup(self, name: Seq<u8>) -> Option<u32> {
        if self.has(name) {
            Some(self.entries()[self.position(name)].inode_id)
        } else {
            None
        }
    }

    /// The directory with one more entry, behind the others.
    pub open spec fn with_entry(self, name: Seq<u8>, inode_id: u32) -> FileView {
        self.resized((self.entry_count() + 1) * DIRENT_SZ).overwritten(
            self.entry_count() * DIRENT_SZ,
            dirent::encode_entry(name, inode_id),
        )
    }

    /// The directory without entry `i`: the last entry takes its place.
    pub open spec fn without_entry(self, i: int) -> FileView {
        let last = self.entry_count() - 1;
        let moved = if i == last {
            self
        } else {
            self.overwritten(i * DIRENT_SZ, self.entry_bytes(last))
        };
        moved.resized(last * DIRENT_SZ)
    }
}

/// Where `position` finds a name.
pub proof fn lemma_position(f: FileView, name: Seq<u8>)
    ensures
        0 <= f.position(name) <= f.entry_count(),
        f.has(name) ==> f.entries()[f.position(name)].name == name,
        forall|j: int|
            0 <= j < f.position(name) ==> (#[trigger] f.entries()[j]).name != name,
{
    seqs::lemma_first_index(f.entries(), has_name(name));
    let p = f.position(name);
    assert(f.entry_count() >= 0);
    assert forall|j: int| 0 <= j < p implies (#[trigger] f.entries()[j]).name != name by {
        assert(!has_name(name)(f.entries()[j]));
    }
}

/// Resizing keeps the shape of a file.
pub proof fn lemma_resized_wf(f: FileView, size: int)
    requires
        0 <= size <= u32::MAX,
    ensures
        f.resized(size).wf(),
{
}

/// Adding an entry adds it behind the others and leaves those as they are.
pub proof fn lemma_with_entry(f: FileView, name: Seq<u8>, inode_id: u32)
    requires
        f.wf(),
        name.len() <= dirent::NAME_LENGTH_LIMIT,
        (f.entry_count() + 1) * DIRENT_SZ <= u32::MAX,
    ensures
        f.with_entry(name, inode_id).wf(),
        f.with_entry(name, inode_id).entries() == f.entries().push(
            DirEntryView { name: dirent::until_nul(name), inode_id },
        ),
{
    let g = f.with_entry(name, inode_id);
    let n = f.entry_count();
    let bytes = dirent::encode_entry(name, inode_id);
    dirent::entry_roundtrip(name, inode_id);
    assert(g.entry_count() == n + 1);
    assert forall|i: int| 0 <= i < n implies g.entry_bytes(i) == f.entry_bytes(i) by {
        assert(g.entry_bytes(i) =~= f.entry_bytes(i));
    }
    assert(g.entry_bytes(n) =~= bytes);
    assert(g.entries() =~= f.entries().push(
        DirEntryView { name: dirent::until_nul(name), inode_id },
    ));
}

/// Removing an entry puts the last one in its place and leaves the others as they are.
pub proof fn lemma_without_entry(f: FileView, i: int)
    requires
        f.wf(),
        0 <= i < f.entry_count(),
    ensures
        f.without_entry(i).wf(),
        f.without_entry(i).entries() == f.entries().update(i, f.entries().last()).drop_last(),
{
    let g = f.without_entry(i);
    let last = f.entry_count() - 1;
    assert(g.entry_count() == last);
    assert forall|j: int| 0 <= j < last implies g.entry_bytes(j) == f.entry_bytes(
        if j == i {
            last
        } else {
            j
        },
    ) by {
        assert(g.entry_bytes(j) =~= f.entry_bytes(
            if j == i {
                last
            } else {
                j
            },
        ));
    }
    assert(g.entries() =~= f.entries().update(i, f.entries().last()).drop_last());
}

} // verus!
