//! The virtual file system layer: files, and the names that a directory gives them.
use crate::bitmap;
use crate::dirent;
use crate::dirent::{DirEntry, DIRENT_SZ, NAME_LENGTH_LIMIT};
use crate::efs::{EasyFileSystem, FsView};
use crate::layout::DiskInode;
use crate::model;
use crate::model::{DiskInodeType, FileView};
use crate::seqs;
use std::sync::Arc;
use vstd::prelude::*;
use vstd::utf8::*;

verus! {

impl FsView {
    /// Whether directory `dir` can take one more entry: its size stays a `u32`, and the block
    /// that the entry may need is free.
    pub open spec fn can_add_entry(self, dir: int) -> bool {
        let size = (self.files[dir].entry_count() + 1) * DIRENT_SZ;
        &&& size <= u32::MAX
        &&& self.blocks_needed(dir, size) <= self.free_blocks
    }

    /// The file system with one more entry in directory `dir`.
    pub open spec fn with_entry(self, dir: int, name: Seq<u8>, inode_id: u32) -> FsView {
        let size = (self.files[dir].entry_count() + 1) * DIRENT_SZ;
        self.resized(dir, size).with_file(dir, self.files[dir].with_entry(name, inode_id))
    }

    /// The file system with the next inode taken for an empty file that has one name.
    pub open spec fn with_new_file(self) -> FsView {
        self.with_used(self.next_inode(), true).with_file(
            self.next_inode(),
            FileView::fresh(DiskInodeType::File, 1),
        )
    }

    /// Whether `create` can add `name` to directory `dir`, if `dir` does not have it.
    pub open spec fn can_create(self, dir: int, name: Seq<u8>) -> bool {
        &&& self.next_inode() < self.files.len()
        &&& name.len() <= NAME_LENGTH_LIMIT
        &&& self.with_new_file().can_add_entry(dir)
    }

    /// The file system after directory `dir` got a new file named `name`.
    pub open spec fn created(self, dir: int, name: Seq<u8>) -> FsView {
        self.with_new_file().with_entry(dir, name, self.next_inode() as u32).synced()
    }

    /// The file system with one more link counted for inode `i`.
    pub open spec fn with_link(self, i: int) -> FsView {
        self.with_file(i, self.files[i].with_nlink(self.files[i].nlink + 1))
    }

    /// Whether `link` can give inode `i` the name `name` in directory `dir`.
    pub open spec fn can_link(self, dir: int, i: int, name: Seq<u8>) -> bool {
        &&& i < self.files.len()
        &&& self.files[i].nlink < u32::MAX
        &&& name.len() <= NAME_LENGTH_LIMIT
        &&& self.with_link(i).can_add_entry(dir)
    }

    /// The file system after inode `i` got the name `name` in directory `dir`.
    pub open spec fn linked(self, dir: int, i: int, name: Seq<u8>) -> FsView {
        self.with_link(i).with_entry(dir, name, i as u32)
    }

    /// Whether `unlink` can take a name from inode `i`.
    pub open spec fn can_unlink(self, i: int) -> bool {
        &&& i < self.files.len()
        &&& self.files[i].nlink >= 1
        &&& self.files[i].nlink == 1 ==> self.inode_used[i]
    }

    /// The file system without the first entry of directory `dir` that has the name `name`, and
    /// with one link less counted for its inode.
    pub open spec fn without_name(self, dir: int, name: Seq<u8>) -> FsView {
        let i = self.files[dir].lookup(name)->0 as int;
        let s = self.with_file(i, self.files[i].with_nlink(self.files[i].nlink - 1));
        s.with_file(dir, s.files[dir].without_entry(s.files[dir].position(name)))
    }

    /// The file system after `name` was taken out of directory `dir`: a file that has no name
    /// left loses its contents and its inode.
    pub open spec fn unlinked(self, dir: int, name: Seq<u8>) -> FsView {
        let i = self.files[dir].lookup(name)->0 as int;
        let s = self.without_name(dir, name);
        if s.files[i].nlink == 0 {
            s.cleared(i).with_used(i, false).synced()
        } else {
            s.synced()
        }
    }

    /// Whether `len` bytes can be written to file `i` at `offset`: its size stays a `u32`, and
    /// the blocks that it may need are free.
    pub open spec fn can_write(self, i: int, offset: int, len: int) -> bool {
        &&& offset + len <= u32::MAX
        &&& self.blocks_needed(i, offset + len) <= self.free_blocks
    }

    /// The file system after `bytes` were written to file `i` at `offset`.
    pub open spec fn written(self, i: int, offset: int, bytes: Seq<u8>) -> FsView {
        self.resized(i, offset + bytes.len()).with_file(
            i,
            self.files[i].written(offset, bytes),
        ).synced()
    }
}

/// Whether two strings are equal.
fn same_text(a: &str, b: &str) -> (same: bool)
    ensures
        same == (a@ == b@),
{
    let same: bool = seqs::bytes_eq(a.as_bytes(), b.as_bytes());
    proof {
        broadcast use encode_utf8_decode_utf8;

        assert(same ==> decode_utf8(encode_utf8(a@)) == decode_utf8(encode_utf8(b@)));
    }
    same
}

/// An inode of a file system, by its number and by where it stands on disk.
pub struct Inode {
    inode_id: usize,
    block_id: usize,
    block_offset: usize,
}

impl Inode {
    /// The number of the inode.
    pub closed spec fn id(&self) -> int {
        self.inode_id as int
    }

    /// The block that holds the inode.
    pub closed spec fn block(&self) -> int {
        self.block_id as int
    }

    /// The offset of the inode in its block.
    pub closed spec fn offset(&self) -> int {
        self.block_offset as int
    }

    /// Whether an inode of the file system stands there.
    pub open spec fn valid(&self, s: FsView) -> bool {
        s.is_inode_pos(self.block(), self.offset())
    }

    /// The index of the file.
    pub open spec fn index(&self, s: FsView) -> int {
        s.inode_at(self.block(), self.offset())
    }

    /// The file.
    pub open spec fn file(&self, s: FsView) -> FileView {
        s.files[self.index(s)]
    }

    /// Whether it is a directory of the file system.
    pub open spec fn is_directory(&self, s: FsView) -> bool {
        &&& self.valid(s)
        &&& self.file(s).kind == DiskInodeType::Directory
    }

    /// Whether `create` can be asked for `name`: this is a directory, which has the name or can
    /// take it.
    pub open spec fn may_create(&self, s: FsView, name: Seq<char>) -> bool {
        &&& self.is_directory(s)
        &&& !self.file(s).has(encode_utf8(name)) ==> s.can_create(
            self.index(s),
            encode_utf8(name),
        )
    }

    /// Whether `link` can be asked for the two names: they are equal, or this is a directory,
    /// which does not have the old name or can take the new one for the same inode.
    pub open spec fn may_link(&self, s: FsView, old_name: Seq<char>, new_name: Seq<char>) -> bool {
        old_name != new_name ==> {
            &&& self.is_directory(s)
            &&& self.file(s).lookup(encode_utf8(old_name)) matches Some(inode_id) ==> s.can_link(
                self.index(s),
                inode_id as int,
                encode_utf8(new_name),
            )
        }
    }

    /// Whether `unlink` can be asked for `name`: this is a directory, which does not have the
    /// name or can lose it.
    pub open spec fn may_unlink(&self, s: FsView, name: Seq<char>) -> bool {
        &&& self.is_directory(s)
        &&& self.file(s).lookup(encode_utf8(name)) matches Some(inode_id) ==> s.can_unlink(
            inode_id as int,
        )
    }

    /// Whether `ls` can be asked: all names are UTF-8.
    pub open spec fn may_ls(&self, s: FsView) -> bool {
        &&& self.valid(s)
        &&& forall|k: int|
            0 <= k < self.file(s).entry_count() ==> valid_utf8(
                (#[trigger] self.file(s).entries()[k]).name,
            )
    }

    /// Whether `len` bytes can be written at `offset`.
    pub open spec fn may_write(&self, s: FsView, offset: int, len: int) -> bool {
        &&& self.valid(s)
        &&& s.can_write(self.index(s), offset, len)
    }

    /// Whether it is the inode with the given number, and stands where that inode stands.
    pub open spec fn stands_for(&self, s: FsView, inode_id: int) -> bool {
        &&& self.id() == inode_id
        &&& (self.block(), self.offset()) == s.inode_pos(inode_id)
    }

    /// An inode.
    pub fn new(inode_id: usize, block_id: usize, block_offset: usize) -> (inode: Self)
        ensures
            inode.id() == inode_id,
            inode.block() == block_id,
            inode.offset() == block_offset,
    {
        Self { inode_id, block_id, block_offset }
    }

    /// The inode with the given number.
    fn with_number(fs: &EasyFileSystem, inode_id: u32) -> (inode: Arc<Inode>)
        requires
            fs.wf(),
        ensures
            inode.stands_for(fs@, inode_id as int),
    {
        let (block_id, block_offset) = fs.get_disk_inode_pos(inode_id);
        Arc::new(Self::new(inode_id as usize, block_id as usize, block_offset))
    }

    /// Reads entry `k` of inode `i`.
    fn read_entry(fs: &EasyFileSystem, i: usize, k: usize, entry: &mut DirEntry)
        requires
            fs.wf(),
            i < fs@.files.len(),
            k < fs@.files[i as int].entry_count(),
            old(entry)@.len() == DIRENT_SZ,
        ensures
            final(entry)@ == fs@.files[i as int].entry_bytes(k as int),
            final(entry)@.len() == DIRENT_SZ,
    {
        proof {
            fs.lemma_view_wf();
        }
        let n = fs.read_inode(i, k * DIRENT_SZ, entry.as_bytes_mut());
        assert(n == DIRENT_SZ);
        assert(entry@ =~= fs@.files[i as int].entry_bytes(k as int));
    }

    /// The index of the first entry of inode `i` with the given name, and the inode that it
    /// stands for.
    fn find_entry(fs: &EasyFileSystem, i: usize, name: &str) -> (found: Option<(usize, u32)>)
        requires
            fs.wf(),
            i < fs@.files.len(),
        ensures
            match found {
                Some((k, inode_id)) => {
                    &&& k == fs@.files[i as int].position(encode_utf8(name@))
                    &&& fs@.files[i as int].lookup(encode_utf8(name@)) == Some(inode_id)
                },
                None => fs@.files[i as int].lookup(encode_utf8(name@)) is None,
            },
    {
        let ghost file = fs@.files[i as int];
        let ghost entries = file.entries();
        let ghost wanted = encode_utf8(name@);
        let file_count: usize = fs.size(i) as usize / DIRENT_SZ;
        let mut entry = DirEntry::empty();
        let mut k: usize = 0;
        while k < file_count
            invariant
                k <= file_count == file.entry_count(),
                fs.wf(),
                i < fs@.files.len(),
                file == fs@.files[i as int],
                entries == file.entries(),
                wanted == encode_utf8(name@),
                entry@.len() == DIRENT_SZ,
                forall|j: int|
                    0 <= j < k ==> !model::has_name(wanted)(#[trigger] entries[j]),
            decreases file_count - k,
        {
            Self::read_entry(fs, i, k, &mut entry);
            assert(entries[k as int] == dirent::decode_entry(entry@));
            if seqs::bytes_eq(entry.name_bytes().as_slice(), name.as_bytes()) {
                proof {
                    seqs::lemma_first_index_is(entries, model::has_name(wanted), k as int);
                }
                return Some((k, entry.inode_id()));
            }
            k = k + 1;
        }
        proof {
            seqs::lemma_first_index_is(entries, model::has_name(wanted), k as int);
        }
        None
    }

    /// The number of the inode that has the given name in this directory.
    fn find_inode_id(&self, fs: &EasyFileSystem, name: &str) -> (inode_id: Option<u32>)
        requires
            fs.wf(),
            self.is_directory(fs@),
        ensures
            inode_id == self.file(fs@).lookup(encode_utf8(name@)),
    {
        match Self::find_entry(fs, fs.inode_at(self.block_id, self.block_offset), name) {
            Some((_, inode_id)) => Some(inode_id),
            None => None,
        }
    }

    /// The inode that has the given name in this directory.
    pub fn find(&self, fs: &EasyFileSystem, name: &str) -> (inode: Option<Arc<Inode>>)
        requires
            fs.wf(),
            self.is_directory(fs@),
        ensures
            match self.file(fs@).lookup(encode_utf8(name@)) {
                Some(inode_id) => inode matches Some(found) && found.stands_for(
                    fs@,
                    inode_id as int,
                ),
                None => inode is None,
            },
    {
        match self.find_inode_id(fs, name) {
            Some(inode_id) => Some(Self::with_number(fs, inode_id)),
            None => None,
        }
    }

    /// Adds an entry to inode `i`, behind those that it has.
    fn append_entry(fs: &mut EasyFileSystem, i: usize, name: &str, inode_id: u32)
        requires
            old(fs).wf(),
            i < old(fs)@.files.len(),
            old(fs)@.can_add_entry(i as int),
            encode_utf8(name@).len() <= NAME_LENGTH_LIMIT,
        ensures
            final(fs).wf(),
            final(fs)@ == old(fs)@.with_entry(i as int, encode_utf8(name@), inode_id),
    {
        proof {
            fs.lemma_view_wf();
        }
        let file_count: usize = fs.size(i) as usize / DIRENT_SZ;
        let new_size: usize = (file_count + 1) * DIRENT_SZ;
        fs.increase_size(i, new_size as u32);
        let entry = DirEntry::new(name, inode_id);
        let n = fs.write_inode(i, file_count * DIRENT_SZ, entry.as_bytes());
        assert(entry@.take(n as int) =~= entry@);
        assert(fs@ =~= old(fs)@.with_entry(i as int, encode_utf8(name@), inode_id));
    }

    /// Creates an empty file with the given name in this directory, unless the directory has
    /// the name.
    pub fn create(&self, fs: &mut EasyFileSystem, name: &str) -> (inode: Option<Arc<Inode>>)
        requires
            old(fs).wf(),
            self.may_create(old(fs)@, name@),
        ensures
            final(fs).wf(),
            if self.file(old(fs)@).has(encode_utf8(name@)) {
                inode is None && final(fs)@ == old(fs)@
            } else {
                &&& inode matches Some(new) && new.stands_for(
                    final(fs)@,
                    old(fs)@.next_inode(),
                )
                &&& final(fs)@ == old(fs)@.created(self.index(old(fs)@), encode_utf8(name@))
            },
    {
        if self.find_inode_id(fs, name).is_some() {
            return None;
        }
        let dir: usize = fs.inode_at(self.block_id, self.block_offset);
        let new_inode_id: u32 = fs.alloc_inode();
        fs.init_inode(new_inode_id as usize, DiskInodeType::File, 1);
        Self::append_entry(fs, dir, name, new_inode_id);
        fs.block_cache_sync_all();
        Some(Self::with_number(fs, new_inode_id))
    }

    /// Gives the file with the name `old_name` in this directory the name `new_name` too.
    /// Whether the directory has `new_name` already is not looked at.
    pub fn link(&self, fs: &mut EasyFileSystem, old_name: &str, new_name: &str) -> (code: isize)
        requires
            old(fs).wf(),
            self.may_link(old(fs)@, old_name@, new_name@),
        ensures
            final(fs).wf(),
            if old_name@ == new_name@ || !self.file(old(fs)@).has(encode_utf8(old_name@)) {
                code == -1 && final(fs)@ == old(fs)@
            } else {
                code == 0 && final(fs)@ == old(fs)@.linked(
                    self.index(old(fs)@),
                    self.file(old(fs)@).lookup(encode_utf8(old_name@))->0 as int,
                    encode_utf8(new_name@),
                )
            },
    {
        if same_text(old_name, new_name) {
            return -1;
        }
        match self.find_inode_id(fs, old_name) {
            None => -1,
            Some(inode_id) => {
                let dir: usize = fs.inode_at(self.block_id, self.block_offset);
                let nlink: u32 = fs.nlink(inode_id as usize);
                fs.set_nlink(inode_id as usize, nlink + 1);
                Self::append_entry(fs, dir, new_name, inode_id);
                0
            },
        }
    }

    /// Removes entry `k` of inode `i`: the last entry takes its place.
    fn remove_entry(fs: &mut EasyFileSystem, i: usize, k: usize)
        requires
            old(fs).wf(),
            i < old(fs)@.files.len(),
            k < old(fs)@.files[i as int].entry_count(),
        ensures
            final(fs).wf(),
            final(fs)@ == old(fs)@.with_file(
                i as int,
                old(fs)@.files[i as int].without_entry(k as int),
            ),
    {
        proof {
            fs.lemma_view_wf();
        }
        let file_count: usize = fs.size(i) as usize / DIRENT_SZ;
        let last: usize = file_count - 1;
        if last != k {
            let mut entry = DirEntry::empty();
            Self::read_entry(fs, i, last, &mut entry);
            let n = fs.write_inode(i, k * DIRENT_SZ, entry.as_bytes());
            assert(entry@.take(n as int) =~= entry@);
        }
        fs.increase_size(i, (last * DIRENT_SZ) as u32);
        assert(fs@ =~= old(fs)@.with_file(
            i as int,
            old(fs)@.files[i as int].without_entry(k as int),
        ));
    }

    /// Takes the given name out of this directory. A file that has no name left is deleted.
    pub fn unlink(&self, fs: &mut EasyFileSystem, name: &str) -> (code: isize)
        requires
            old(fs).wf(),
            self.may_unlink(old(fs)@, name@),
        ensures
            final(fs).wf(),
            if self.file(old(fs)@).has(encode_utf8(name@)) {
                &&& code == 0
                &&& final(fs)@ == old(fs)@.unlinked(self.index(old(fs)@), encode_utf8(name@))
            } else {
                code == -1 && final(fs)@ == old(fs)@
            },
    {
        let dir: usize = fs.inode_at(self.block_id, self.block_offset);
        match Self::find_entry(fs, dir, name) {
            None => -1,
            Some((k, inode_id)) => {
                let i: usize = inode_id as usize;
                let nlink: u32 = fs.nlink(i);
                fs.set_nlink(i, nlink - 1);
                proof {
                    let was = old(fs)@.files[dir as int];
                    let now = fs@.files[dir as int];
                    assert(now.entries() =~= was.entries());
                    model::lemma_position(now, encode_utf8(name@));
                    assert(k == now.position(encode_utf8(name@)));
                }
                Self::remove_entry(fs, dir, k);
                assert(fs@ == old(fs)@.without_name(dir as int, encode_utf8(name@)));
                if fs.nlink(i) == 0 {
                    fs.clear_inode(i);
                    fs.dealloc_inode(inode_id);
                }
                fs.block_cache_sync_all();
                0
            },
        }
    }

    /// The names in this directory, in the order of the entries.
    pub fn ls(&self, fs: &EasyFileSystem) -> (names: Vec<String>)
        requires
            fs.wf(),
            self.may_ls(fs@),
        ensures
            names@.len() == self.file(fs@).entry_count(),
            forall|k: int|
                0 <= k < names@.len() ==> (#[trigger] names@[k])@ == decode_utf8(
                    self.file(fs@).entries()[k].name,
                ),
    {
        let i: usize = fs.inode_at(self.block_id, self.block_offset);
        let file_count: usize = fs.size(i) as usize / DIRENT_SZ;
        let mut v: Vec<String> = Vec::new();
        let mut k: usize = 0;
        while k < file_count
            invariant
                k <= file_count == self.file(fs@).entry_count(),
                fs.wf(),
                i == self.index(fs@),
                i < fs@.files.len(),
                v@.len() == k,
                self.may_ls(fs@),
                forall|j: int|
                    0 <= j < k ==> (#[trigger] v@[j])@ == decode_utf8(
                        self.file(fs@).entries()[j].name,
                    ),
            decreases file_count - k,
        {
            let mut entry = DirEntry::empty();
            Self::read_entry(fs, i, k, &mut entry);
            assert(self.file(fs@).entries()[k as int] == dirent::decode_entry(entry@));
            v.push(entry.name());
            k = k + 1;
        }
        v
    }

    /// Reads the contents from `offset` on into `buf`, as far as both reach, and gives the
    /// number of bytes.
    pub fn read_at(&self, fs: &EasyFileSystem, offset: usize, buf: &mut [u8]) -> (n: usize)
        requires
            fs.wf(),
            self.valid(fs@),
        ensures
            n == model::read_len(
                self.file(fs@).size as int,
                offset as int,
                old(buf)@.len() as int,
            ),
            final(buf)@ == seqs::splice(
                old(buf)@,
                0,
                seqs::window(self.file(fs@).content(), offset as int, n as int),
            ),
    {
        proof {
            fs.lemma_view_wf();
        }
        let n = fs.read_inode(fs.inode_at(self.block_id, self.block_offset), offset, buf);
        assert(seqs::window(self.file(fs@).content(), offset as int, n as int) =~= seqs::window(
            self.file(fs@).raw,
            offset as int,
            n as int,
        ));
        n
    }

    /// Writes `buf` into the contents at `offset`, which then end behind it, and gives the
    /// number of bytes.
    pub fn write_at(&self, fs: &mut EasyFileSystem, offset: usize, buf: &[u8]) -> (n: usize)
        requires
            old(fs).wf(),
            self.may_write(old(fs)@, offset as int, buf@.len() as int),
        ensures
            final(fs).wf(),
            n == buf@.len(),
            final(fs)@ == old(fs)@.written(self.index(old(fs)@), offset as int, buf@),
    {
        let i: usize = fs.inode_at(self.block_id, self.block_offset);
        fs.increase_size(i, (offset + buf.len()) as u32);
        let n = fs.write_inode(i, offset, buf);
        fs.block_cache_sync_all();
        assert(buf@.take(n as int) =~= buf@);
        assert(fs@ =~= old(fs)@.written(self.index(old(fs)@), offset as int, buf@));
        n
    }

    /// Whether an inode of the file system stands where this one stands.
    pub fn is_valid(&self, fs: &EasyFileSystem) -> (yes: bool)
        requires
            fs.wf(),
        ensures
            yes == self.valid(fs@),
    {
        fs.is_inode_pos(self.block_id, self.block_offset)
    }

    /// Whether this is a directory of the file system.
    pub fn is_dir(&self, fs: &EasyFileSystem) -> (yes: bool)
        requires
            fs.wf(),
        ensures
            yes == self.is_directory(fs@),
    {
        self.is_valid(fs) && fs.is_dir(fs.inode_at(self.block_id, self.block_offset))
    }

    /// Whether a directory of `size` bytes can take one more entry with `free` blocks free.
    fn entry_fits(size: u32, free: usize) -> (yes: bool)
        ensures
            yes == ({
                let grown = (size as int / DIRENT_SZ as int + 1) * DIRENT_SZ;
                &&& grown <= u32::MAX
                &&& model::block_count(grown) - model::block_count(size as int) <= free
            }),
    {
        let entry: u32 = DIRENT_SZ as u32;
        if size / entry + 1 > u32::MAX / entry {
            return false;
        }
        let grown: u32 = (size / entry + 1) * entry;
        (DiskInode::total_blocks(grown) - DiskInode::total_blocks(size)) as usize <= free
    }

    /// Whether `create` can be asked for `name`.
    pub fn can_create(&self, fs: &EasyFileSystem, name: &str) -> (yes: bool)
        requires
            fs.wf(),
        ensures
            yes == self.may_create(fs@, name@),
    {
        if !self.is_dir(fs) {
            return false;
        }
        let dir: usize = fs.inode_at(self.block_id, self.block_offset);
        if self.find_inode_id(fs, name).is_some() {
            return true;
        }
        proof {
            fs.lemma_view_wf();
            seqs::lemma_first_index(fs@.inode_used, bitmap::is_clear());
        }
        if fs.inodes_exhausted() || name.as_bytes().len() > NAME_LENGTH_LIMIT {
            return false;
        }
        let size: u32 = if dir == fs.next_inode() {
            0
        } else {
            fs.size(dir)
        };
        Self::entry_fits(size, fs.free_blocks())
    }

    /// Whether `link` can be asked for the two names.
    pub fn can_link(&self, fs: &EasyFileSystem, old_name: &str, new_name: &str) -> (yes: bool)
        requires
            fs.wf(),
        ensures
            yes == self.may_link(fs@, old_name@, new_name@),
    {
        if same_text(old_name, new_name) {
            return true;
        }
        if !self.is_dir(fs) {
            return false;
        }
        let dir: usize = fs.inode_at(self.block_id, self.block_offset);
        match self.find_inode_id(fs, old_name) {
            None => true,
            Some(inode_id) => {
                let i: usize = inode_id as usize;
                i < fs.inode_count() && fs.nlink(i) < u32::MAX && new_name.as_bytes().len()
                    <= NAME_LENGTH_LIMIT && Self::entry_fits(fs.size(dir), fs.free_blocks())
            },
        }
    }

    /// Whether `unlink` can be asked for `name`.
    pub fn can_unlink(&self, fs: &EasyFileSystem, name: &str) -> (yes: bool)
        requires
            fs.wf(),
        ensures
            yes == self.may_unlink(fs@, name@),
    {
        if !self.is_dir(fs) {
            return false;
        }
        match self.find_inode_id(fs, name) {
            None => true,
            Some(inode_id) => {
                let i: usize = inode_id as usize;
                i < fs.inode_count() && fs.nlink(i) >= 1 && (fs.nlink(i) != 1 || fs.inode_in_use(
                    i,
                ))
            },
        }
    }

    /// Whether `ls` can be asked.
    pub fn can_ls(&self, fs: &EasyFileSystem) -> (yes: bool)
        requires
            fs.wf(),
        ensures
            yes == self.may_ls(fs@),
    {
        if !self.is_valid(fs) {
            return false;
        }
        let i: usize = fs.inode_at(self.block_id, self.block_offset);
        let file_count: usize = fs.size(i) as usize / DIRENT_SZ;
        let mut entry = DirEntry::empty();
        let mut k: usize = 0;
        while k < file_count
            invariant
                k <= file_count == self.file(fs@).entry_count(),
                fs.wf(),
                i == self.index(fs@),
                i < fs@.files.len(),
                entry@.len() == DIRENT_SZ,
                forall|j: int|
                    0 <= j < k ==> valid_utf8((#[trigger] self.file(fs@).entries()[j]).name),
            decreases file_count - k,
        {
            Self::read_entry(fs, i, k, &mut entry);
            assert(self.file(fs@).entries()[k as int] == dirent::decode_entry(entry@));
            if !entry.has_text_name() {
                return false;
            }
            k = k + 1;
        }
        true
    }

    /// Whether `len` bytes can be written at `offset`.
    pub fn can_write(&self, fs: &EasyFileSystem, offset: usize, len: usize) -> (yes: bool)
        requires
            fs.wf(),
        ensures
            yes == self.may_write(fs@, offset as int, len as int),
    {
        let max: usize = u32::MAX as usize;
        if !self.is_valid(fs) || offset > max || len > max - offset {
            return false;
        }
        let size: u32 = fs.size(fs.inode_at(self.block_id, self.block_offset));
        let end: u32 = (offset + len) as u32;
        end <= size || (DiskInode::total_blocks(end) - DiskInode::total_blocks(size)) as usize
            <= fs.free_blocks()
    }

    /// Empties the file and frees all its blocks, those that it was cut off from among them.
    pub fn clear(&self, fs: &mut EasyFileSystem)
        requires
            old(fs).wf(),
            self.valid(old(fs)@),
        ensures
            final(fs).wf(),
            final(fs)@ == old(fs)@.cleared(self.index(old(fs)@)).synced(),
    {
        fs.clear_inode(fs.inode_at(self.block_id, self.block_offset));
        fs.block_cache_sync_all();
    }

    /// The number of the inode.
    pub fn get_inode_id(&self) -> (inode_id: usize)
        ensures
            inode_id == self.id(),
    {
        self.inode_id
    }

    /// The kind of the inode.
    pub fn get_inode_type(&self, fs: &EasyFileSystem) -> (kind: DiskInodeType)
        requires
            fs.wf(),
            self.valid(fs@),
        ensures
            kind == self.file(fs@).kind,
    {
        if fs.is_dir(fs.inode_at(self.block_id, self.block_offset)) {
            DiskInodeType::Directory
        } else {
            DiskInodeType::File
        }
    }

    /// The link count, as the file system has it now.
    pub fn get_nlink(&self, fs: &EasyFileSystem) -> (nlink: usize)
        requires
            fs.wf(),
            self.valid(fs@),
        ensures
            nlink == self.file(fs@).nlink,
    {
        fs.nlink(fs.inode_at(self.block_id, self.block_offset)) as usize
    }
}

} // verus!
