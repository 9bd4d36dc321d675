//! A file system that several holders share: it stands behind a lock, and each operation on an
//! inode takes the lock for as long as it lasts.
use crate::efs::{EasyFileSystem, FsView};
use crate::model;
use crate::model::DiskInodeType;
use crate::seqs;
use crate::vfs::Inode;
use spin::{Mutex, MutexGuard};
use std::sync::Arc;
use vstd::prelude::*;
use vstd::utf8::*;

verus! {

/// The lock of the `spin` crate. Its value tells it from other locks, and does not change with what
/// stands behind it.
#[verifier::external_type_specification]
#[verifier::external_body]
#[verifier::reject_recursive_types(T)]
#[verifier::reject_recursive_types(R)]
pub struct ExMutex<T: ?Sized, R>(spin::mutex::Mutex<T, R>);

/// The guard that the lock of the `spin` crate gives out.
#[verifier::external_type_specification]
#[verifier::external_body]
#[verifier::reject_recursive_types(T)]
pub struct ExMutexGuard<'a, T: ?Sized + 'a>(MutexGuard<'a, T>);

/// The relax strategy that the lock spins with.
#[verifier::external_type_specification]
#[verifier::external_body]
pub struct ExSpin(spin::Spin);

/// The operation cannot be carried out on the file system as it is: the inode is none of the
/// file system or not a directory, a name is too long or no text, or there is no room.
#[derive(Clone, Copy, Debug, PartialEq, Eq, Structural)]
pub struct Refused;

/// What stands behind the lock: a file system that is in order whenever the lock is free.
pub struct Volume {
    fs: EasyFileSystem,
}

impl View for Volume {
    type V = FsView;

    closed spec fn view(&self) -> FsView {
        self.fs@
    }
}

impl Volume {
    #[verifier::type_invariant]
    closed spec fn in_order(self) -> bool {
        self.fs.wf()
    }

    /// The file system, as what stands behind a lock.
    pub fn new(fs: EasyFileSystem) -> (volume: Self)
        requires
            fs.wf(),
        ensures
            volume@ == fs@,
    {
        Volume { fs }
    }

    /// The file system, to be read.
    fn fs(&self) -> (fs: &EasyFileSystem)
        ensures
            fs.wf(),
            fs@ == self@,
            self@.wf(),
    {
        proof {
            use_type_invariant(self);
            self.fs.lemma_view_wf();
        }
        &self.fs
    }

    /// Takes the file system out, to be changed and put back.
    fn take(&mut self) -> (fs: EasyFileSystem)
        ensures
            fs.wf(),
            fs@ == old(self)@,
    {
        proof {
            use_type_invariant(&*self);
        }
        let mut fs = EasyFileSystem::new(0, 1, 0);
        std::mem::swap(&mut fs, &mut self.fs);
        fs
    }

    /// Puts a file system in.
    fn put(&mut self, fs: EasyFileSystem)
        requires
            fs.wf(),
        ensures
            final(self)@ == fs@,
    {
        self.fs = fs;
    }
}

/// The file system that a lock was made with.
pub uninterp spec fn made_with(lock: Mutex<Volume>) -> FsView;

/// The lock that a guard holds.
pub uninterp spec fn lock_of(guard: MutexGuard<'_, Volume>) -> Mutex<Volume>;

/// The file system that stood behind the lock when a guard was given out.
pub uninterp spec fn found(guard: MutexGuard<'_, Volume>) -> FsView;

/// The file system that a guard gives access to. It does not change but through the guard.
pub uninterp spec fn held(guard: MutexGuard<'_, Volume>) -> FsView;

/// Whether some holder of the lock found the file system `s` behind it and left `t`.
pub uninterp spec fn turn(lock: Mutex<Volume>, s: FsView, t: FsView) -> bool;

/// Whether the file system `s` stood behind the lock while it was free: the lock was made with it,
/// or a holder left it.
pub open spec fn stood(lock: Mutex<Volume>, s: FsView) -> bool {
    s == made_with(lock) || exists|r: FsView| turn(lock, r, s)
}

/// A lock with a file system behind it.
///
/// Calls `spin::Mutex::new`. Trusted: what stands behind the lock at first is what it was made
/// with.
#[verifier::external_body]
fn new_lock(volume: Volume) -> (lock: Mutex<Volume>)
    ensures
        made_with(lock) == volume@,
{
    Mutex::new(volume)
}

/// Takes the lock, as soon as no one has it.
///
/// Calls `spin::Mutex::lock`. Trusted: the guard holds this lock, and gives access to what it
/// found behind it, which the lock was made with or a holder before left there. Which holder came
/// before is not said: that depends on who else takes the lock.
#[verifier::external_body]
fn lock<'a>(mutex: &'a Mutex<Volume>) -> (guard: MutexGuard<'a, Volume>)
    ensures
        lock_of(guard) == *mutex,
        held(guard) == found(guard),
        stood(*mutex, found(guard)),
{
    mutex.lock()
}

/// What stands behind the lock that the guard holds.
///
/// Calls `DerefMut::deref_mut` of `spin::MutexGuard`. Trusted: the reference is to what the guard
/// gives access to, which is afterwards what was left behind the reference; the guard holds the
/// same lock, for the same turn.
#[verifier::external_body]
fn volume_of<'b, 'a>(guard: &'b mut MutexGuard<'a, Volume>) -> (volume: &'b mut Volume)
    ensures
        volume@ == held(*old(guard)),
        held(*final(guard)) == final(volume)@,
        lock_of(*final(guard)) == lock_of(*old(guard)),
        found(*final(guard)) == found(*old(guard)),
{
    &mut *guard
}

/// Gives the lock back: the result is the lock, with what the guard gave access to behind it.
///
/// Calls `Drop::drop` of `spin::MutexGuard`. Trusted: the turn that ends began with what the guard
/// found, and leaves what the guard gave access to at last.
#[verifier::external_body]
fn unlock<'a>(mutex: &'a Mutex<Volume>, guard: MutexGuard<'a, Volume>) -> (free: &'a Mutex<Volume>)
    requires
        lock_of(guard) == *mutex,
    ensures
        *free == *mutex,
        turn(*free, found(guard), held(guard)),
{
    drop(guard);
    mutex
}

/// Whether `h` is guard `g` later in the same turn.
pub open spec fn same_turn(g: MutexGuard<'_, Volume>, h: MutexGuard<'_, Volume>) -> bool {
    &&& lock_of(h) == lock_of(g)
    &&& found(h) == found(g)
}

/// What comes of looking `name` up in directory `dir`.
pub open spec fn find_outcome(
    s: FsView,
    dir: &Inode,
    name: Seq<char>,
    found: Result<Option<Arc<Inode>>, Refused>,
) -> bool {
    match found {
        Err(_) => !dir.is_directory(s),
        Ok(inode) => dir.is_directory(s) && match dir.file(s).lookup(encode_utf8(name)) {
            Some(inode_id) => inode matches Some(i) && i.stands_for(s, inode_id as int),
            None => inode is None,
        },
    }
}

/// What comes of creating a file named `name` in directory `dir`.
pub open spec fn create_outcome(
    s: FsView,
    dir: &Inode,
    name: Seq<char>,
    new: Result<Option<Arc<Inode>>, Refused>,
) -> bool {
    match new {
        Err(_) => !dir.may_create(s, name),
        Ok(None) => dir.may_create(s, name) && dir.file(s).has(encode_utf8(name)),
        Ok(Some(inode)) => dir.may_create(s, name) && !dir.file(s).has(encode_utf8(name))
            && inode.stands_for(s, s.next_inode()),
    }
}

/// The file system after a file named `name` was to be created in directory `dir`.
pub open spec fn after_create(s: FsView, dir: &Inode, name: Seq<char>) -> FsView {
    if dir.may_create(s, name) && !dir.file(s).has(encode_utf8(name)) {
        s.created(dir.index(s), encode_utf8(name))
    } else {
        s
    }
}

/// What comes of linking `old_name` as `new_name` in directory `dir`.
pub open spec fn link_outcome(
    s: FsView,
    dir: &Inode,
    old_name: Seq<char>,
    new_name: Seq<char>,
    code: Result<isize, Refused>,
) -> bool {
    match code {
        Err(_) => !dir.may_link(s, old_name, new_name),
        Ok(c) => {
            &&& dir.may_link(s, old_name, new_name)
            &&& c == if old_name == new_name || !dir.file(s).has(encode_utf8(old_name)) {
                -1int
            } else {
                0
            }
        },
    }
}

/// The file system after `old_name` was to be linked as `new_name` in directory `dir`.
pub open spec fn after_link(
    s: FsView,
    dir: &Inode,
    old_name: Seq<char>,
    new_name: Seq<char>,
) -> FsView {
    if dir.may_link(s, old_name, new_name) && old_name != new_name && dir.file(s).has(
        encode_utf8(old_name),
    ) {
        s.linked(
            dir.index(s),
            dir.file(s).lookup(encode_utf8(old_name))->0 as int,
            encode_utf8(new_name),
        )
    } else {
        s
    }
}

/// What comes of taking `name` out of directory `dir`.
pub open spec fn unlink_outcome(
    s: FsView,
    dir: &Inode,
    name: Seq<char>,
    code: Result<isize, Refused>,
) -> bool {
    match code {
        Err(_) => !dir.may_unlink(s, name),
        Ok(c) => dir.may_unlink(s, name) && c == if dir.file(s).has(encode_utf8(name)) {
            0int
        } else {
            -1
        },
    }
}

/// The file system after `name` was to be taken out of directory `dir`.
pub open spec fn after_unlink(s: FsView, dir: &Inode, name: Seq<char>) -> FsView {
    if dir.may_unlink(s, name) && dir.file(s).has(encode_utf8(name)) {
        s.unlinked(dir.index(s), encode_utf8(name))
    } else {
        s
    }
}

/// What comes of listing directory `dir`.
pub open spec fn ls_outcome(s: FsView, dir: &Inode, names: Result<Vec<String>, Refused>) -> bool {
    match names {
        Err(_) => !dir.may_ls(s),
        Ok(v) => {
            &&& dir.may_ls(s)
            &&& v@.len() == dir.file(s).entry_count()
            &&& forall|k: int|
                0 <= k < v@.len() ==> (#[trigger] v@[k])@ == decode_utf8(
                    dir.file(s).entries()[k].name,
                )
        },
    }
}

/// What comes of reading file `inode` at `offset` into `buf`.
pub open spec fn read_outcome(
    s: FsView,
    inode: &Inode,
    offset: int,
    buf: Seq<u8>,
    filled: Seq<u8>,
    n: Result<usize, Refused>,
) -> bool {
    match n {
        Err(_) => !inode.valid(s) && filled == buf,
        Ok(n) => {
            &&& inode.valid(s)
            &&& n == model::read_len(inode.file(s).size as int, offset, buf.len() as int)
            &&& filled == seqs::splice(
                buf,
                0,
                seqs::window(inode.file(s).content(), offset, n as int),
            )
        },
    }
}

/// What comes of writing `len` bytes to file `inode` at `offset`.
pub open spec fn write_outcome(
    s: FsView,
    inode: &Inode,
    offset: int,
    len: int,
    n: Result<usize, Refused>,
) -> bool {
    match n {
        Err(_) => !inode.may_write(s, offset, len),
        Ok(n) => inode.may_write(s, offset, len) && n == len,
    }
}

/// The file system after `bytes` were to be written to file `inode` at `offset`.
pub open spec fn after_write(s: FsView, inode: &Inode, offset: int, bytes: Seq<u8>) -> FsView {
    if inode.may_write(s, offset, bytes.len() as int) {
        s.written(inode.index(s), offset, bytes)
    } else {
        s
    }
}

/// The file system after file `inode` was to be emptied.
pub open spec fn after_clear(s: FsView, inode: &Inode) -> FsView {
    if inode.valid(s) {
        s.cleared(inode.index(s)).synced()
    } else {
        s
    }
}

/// What comes of asking for the kind of file `inode`.
pub open spec fn kind_outcome(
    s: FsView,
    inode: &Inode,
    kind: Result<DiskInodeType, Refused>,
) -> bool {
    match kind {
        Err(_) => !inode.valid(s),
        Ok(k) => inode.valid(s) && k == inode.file(s).kind,
    }
}

/// What comes of asking for the link count of file `inode`.
pub open spec fn nlink_outcome(s: FsView, inode: &Inode, nlink: Result<usize, Refused>) -> bool {
    match nlink {
        Err(_) => !inode.valid(s),
        Ok(n) => inode.valid(s) && n == inode.file(s).nlink,
    }
}

impl Inode {
    /// `find` on the file system that a guard gives access to.
    pub fn find_held(&self, guard: &mut MutexGuard<'_, Volume>, name: &str) -> (found: Result<
        Option<Arc<Inode>>,
        Refused,
    >)
        ensures
            same_turn(*old(guard), *final(guard)),
            held(*old(guard)).wf(),
            find_outcome(held(*old(guard)), self, name@, found),
            held(*final(guard)) == held(*old(guard)),
    {
        let volume = volume_of(guard);
        let fs = volume.fs();
        if self.is_dir(fs) {
            Ok(self.find(fs, name))
        } else {
            Err(Refused)
        }
    }

    /// `create` on the file system that a guard gives access to.
    pub fn create_held(&self, guard: &mut MutexGuard<'_, Volume>, name: &str) -> (new: Result<
        Option<Arc<Inode>>,
        Refused,
    >)
        ensures
            same_turn(*old(guard), *final(guard)),
            held(*old(guard)).wf(),
            create_outcome(held(*old(guard)), self, name@, new),
            held(*final(guard)) == after_create(held(*old(guard)), self, name@),
    {
        let volume = volume_of(guard);
        if !self.can_create(volume.fs(), name) {
            return Err(Refused);
        }
        let mut fs = volume.take();
        let new = self.create(&mut fs, name);
        volume.put(fs);
        Ok(new)
    }

    /// `link` on the file system that a guard gives access to.
    pub fn link_held(
        &self,
        guard: &mut MutexGuard<'_, Volume>,
        old_name: &str,
        new_name: &str,
    ) -> (code: Result<isize, Refused>)
        ensures
            same_turn(*old(guard), *final(guard)),
            held(*old(guard)).wf(),
            link_outcome(held(*old(guard)), self, old_name@, new_name@, code),
            held(*final(guard)) == after_link(held(*old(guard)), self, old_name@, new_name@),
    {
        let volume = volume_of(guard);
        if !self.can_link(volume.fs(), old_name, new_name) {
            return Err(Refused);
        }
        let mut fs = volume.take();
        let code = self.link(&mut fs, old_name, new_name);
        volume.put(fs);
        Ok(code)
    }

    /// `unlink` on the file system that a guard gives access to.
    pub fn unlink_held(&self, guard: &mut MutexGuard<'_, Volume>, name: &str) -> (code: Result<
        isize,
        Refused,
    >)
        ensures
            same_turn(*old(guard), *final(guard)),
            held(*old(guard)).wf(),
            unlink_outcome(held(*old(guard)), self, name@, code),
            held(*final(guard)) == after_unlink(held(*old(guard)), self, name@),
    {
        let volume = volume_of(guard);
        if !self.can_unlink(volume.fs(), name) {
            return Err(Refused);
        }
        let mut fs = volume.take();
        let code = self.unlink(&mut fs, name);
        volume.put(fs);
        Ok(code)
    }

    /// `ls` on the file system that a guard gives access to.
    pub fn ls_held(&self, guard: &mut MutexGuard<'_, Volume>) -> (names: Result<
        Vec<String>,
        Refused,
    >)
        ensures
            same_turn(*old(guard), *final(guard)),
            held(*old(guard)).wf(),
            ls_outcome(held(*old(guard)), self, names),
            held(*final(guard)) == held(*old(guard)),
    {
        let volume = volume_of(guard);
        let fs = volume.fs();
        if self.can_ls(fs) {
            Ok(self.ls(fs))
        } else {
            Err(Refused)
        }
    }

    /// `read_at` on the file system that a guard gives access to.
    pub fn read_held(
        &self,
        guard: &mut MutexGuard<'_, Volume>,
        offset: usize,
        buf: &mut [u8],
    ) -> (n: Result<usize, Refused>)
        ensures
            same_turn(*old(guard), *final(guard)),
            held(*old(guard)).wf(),
            read_outcome(held(*old(guard)), self, offset as int, old(buf)@, final(buf)@, n),
            held(*final(guard)) == held(*old(guard)),
    {
        let volume = volume_of(guard);
        let fs = volume.fs();
        if self.is_valid(fs) {
            Ok(self.read_at(fs, offset, buf))
        } else {
            Err(Refused)
        }
    }

    /// `write_at` on the file system that a guard gives access to.
    pub fn write_held(
        &self,
        guard: &mut MutexGuard<'_, Volume>,
        offset: usize,
        buf: &[u8],
    ) -> (n: Result<usize, Refused>)
        ensures
            same_turn(*old(guard), *final(guard)),
            held(*old(guard)).wf(),
            write_outcome(held(*old(guard)), self, offset as int, buf@.len() as int, n),
            held(*final(guard)) == after_write(held(*old(guard)), self, offset as int, buf@),
    {
        let volume = volume_of(guard);
        if !self.can_write(volume.fs(), offset, buf.len()) {
            return Err(Refused);
        }
        let mut fs = volume.take();
        let n = self.write_at(&mut fs, offset, buf);
        volume.put(fs);
        Ok(n)
    }

    /// `clear` on the file system that a guard gives access to.
    pub fn clear_held(&self, guard: &mut MutexGuard<'_, Volume>) -> (done: Result<(), Refused>)
        ensures
            same_turn(*old(guard), *final(guard)),
            held(*old(guard)).wf(),
            done is Ok <==> self.valid(held(*old(guard))),
            held(*final(guard)) == after_clear(held(*old(guard)), self),
    {
        let volume = volume_of(guard);
        if !self.is_valid(volume.fs()) {
            return Err(Refused);
        }
        let mut fs = volume.take();
        self.clear(&mut fs);
        volume.put(fs);
        Ok(())
    }

    /// `get_inode_type` on the file system that a guard gives access to.
    pub fn type_held(&self, guard: &mut MutexGuard<'_, Volume>) -> (kind: Result<
        DiskInodeType,
        Refused,
    >)
        ensures
            same_turn(*old(guard), *final(guard)),
            held(*old(guard)).wf(),
            kind_outcome(held(*old(guard)), self, kind),
            held(*final(guard)) == held(*old(guard)),
    {
        let volume = volume_of(guard);
        let fs = volume.fs();
        if self.is_valid(fs) {
            Ok(self.get_inode_type(fs))
        } else {
            Err(Refused)
        }
    }

    /// `get_nlink` on the file system that a guard gives access to.
    pub fn nlink_held(&self, guard: &mut MutexGuard<'_, Volume>) -> (nlink: Result<
        usize,
        Refused,
    >)
        ensures
            same_turn(*old(guard), *final(guard)),
            held(*old(guard)).wf(),
            nlink_outcome(held(*old(guard)), self, nlink),
            held(*final(guard)) == held(*old(guard)),
    {
        let volume = volume_of(guard);
        let fs = volume.fs();
        if self.is_valid(fs) {
            Ok(self.get_nlink(fs))
        } else {
            Err(Refused)
        }
    }
}

/// Whether a write-back of the file system that a guard gives access to is due; it is then taken
/// as done.
pub fn take_sync_held(guard: &mut MutexGuard<'_, Volume>) -> (due: bool)
    ensures
        same_turn(*old(guard), *final(guard)),
        held(*old(guard)).wf(),
        due == held(*old(guard)).sync_due,
        held(*final(guard)) == (FsView { sync_due: false, ..held(*old(guard)) }),
{
    let volume = volume_of(guard);
    let mut fs = volume.take();
    proof {
        fs.lemma_view_wf();
    }
    let due: bool = fs.take_sync_due();
    volume.put(fs);
    due
}

/// An inode of a shared file system. Each operation takes the lock for one turn: it finds a file
/// system that stood behind the lock, does what it does for that one, and leaves behind the lock
/// what the operation makes of it. Which of the file systems that stood behind the lock it finds is
/// not said: that depends on who else takes the lock. Nor do the contracts count turns: they speak
/// of the one that gives the result.
pub struct SharedInode {
    inode: Arc<Inode>,
    fs: Arc<Mutex<Volume>>,
}

/// What comes of looking `name` up in the directory that `dir` is of `s`: the inode is of the same
/// shared file system.
pub open spec fn shared_find_outcome(
    s: FsView,
    dir: &SharedInode,
    name: Seq<char>,
    found: Result<Option<SharedInode>, Refused>,
) -> bool {
    match found {
        Err(_) => !dir.inode().is_directory(s),
        Ok(inode) => dir.inode().is_directory(s) && match dir.inode().file(s).lookup(
            encode_utf8(name),
        ) {
            Some(inode_id) => {
                &&& inode matches Some(i)
                &&& i.inode().stands_for(s, inode_id as int)
                &&& i.volume_lock() == dir.volume_lock()
            },
            None => inode is None,
        },
    }
}

/// What comes of creating a file named `name` in the directory that `dir` is of `s`: the inode is
/// of the same shared file system.
pub open spec fn shared_create_outcome(
    s: FsView,
    dir: &SharedInode,
    name: Seq<char>,
    new: Result<Option<SharedInode>, Refused>,
) -> bool {
    match new {
        Err(_) => !dir.inode().may_create(s, name),
        Ok(None) => dir.inode().may_create(s, name) && dir.inode().file(s).has(encode_utf8(name)),
        Ok(Some(i)) => {
            &&& dir.inode().may_create(s, name)
            &&& !dir.inode().file(s).has(encode_utf8(name))
            &&& i.inode().stands_for(s, s.next_inode())
            &&& i.volume_lock() == dir.volume_lock()
        },
    }
}

impl SharedInode {
    /// The inode.
    pub closed spec fn inode(&self) -> &Inode {
        &self.inode
    }

    /// The lock that the file system stands behind.
    pub closed spec fn volume_lock(&self) -> Mutex<Volume> {
        *self.fs
    }

    /// Whether an operation may find the file system `s`: it is in order, and stood behind the
    /// lock while the lock was free.
    pub open spec fn may_find(&self, s: FsView) -> bool {
        s.wf() && stood(self.volume_lock(), s)
    }

    /// Whether some holder of the lock found the file system `s` and left `t`.
    pub open spec fn took_turn(&self, s: FsView, t: FsView) -> bool {
        turn(self.volume_lock(), s, t)
    }

    /// The root directory of a file system that is shared from now on.
    pub fn share(fs: EasyFileSystem) -> (root: SharedInode)
        requires
            fs.wf(),
            fs@.files.len() > 0,
        ensures
            root.inode().stands_for(fs@, 0),
            made_with(root.volume_lock()) == fs@,
    {
        let (block_id, block_offset) = fs.get_disk_inode_pos(0);
        SharedInode {
            inode: Arc::new(Inode::new(0, block_id as usize, block_offset)),
            fs: Arc::new(new_lock(Volume::new(fs))),
        }
    }

    /// The given inode, as one of the same shared file system.
    pub fn with_inode(&self, inode: Inode) -> (shared: SharedInode)
        ensures
            shared.inode() == &inode,
            shared.volume_lock() == self.volume_lock(),
    {
        self.sibling(Arc::new(inode))
    }

    /// An inode of the same file system.
    fn sibling(&self, inode: Arc<Inode>) -> (shared: SharedInode)
        ensures
            shared.inode() == &*inode,
            shared.volume_lock() == self.volume_lock(),
    {
        SharedInode { inode, fs: self.fs.clone() }
    }

    /// Calls a function over the file system and the inode, to read them while no one else has
    /// the lock. The function is not to take the lock itself: it would wait for ever.
    pub fn inspect<V, F: FnOnce(&EasyFileSystem, &Inode) -> V>(&self, f: F) -> (value: V)
        requires
            forall|fs: &EasyFileSystem|
                fs.wf() ==> #[trigger] call_requires(f, (fs, self.inode())),
        ensures
            exists|fs: &EasyFileSystem|
                fs.wf() && self.may_find(fs@) && self.took_turn(fs@, fs@)
                    && #[trigger] call_ensures(f, (fs, self.inode()), value),
    {
        let mut guard = lock(&self.fs);
        let volume = volume_of(&mut guard);
        let fs = volume.fs();
        let inode: &Inode = &self.inode;
        assert(inode == self.inode());
        let value = f(fs, inode);
        unlock(&self.fs, guard);
        value
    }

    /// The inode that has the given name in this directory.
    pub fn find(&self, name: &str) -> (found: Result<Option<SharedInode>, Refused>)
        ensures
            exists|s: FsView| #[trigger]
                self.may_find(s) && self.took_turn(s, s)
                    && shared_find_outcome(s, self, name@, found),
    {
        let mut guard = lock(&self.fs);
        let ghost s = held(guard);
        let result = self.inode.find_held(&mut guard, name);
        assert(self.may_find(s));
        unlock(&self.fs, guard);
        match result {
            Ok(Some(inode)) => Ok(Some(self.sibling(inode))),
            Ok(None) => Ok(None),
            Err(refused) => Err(refused),
        }
    }

    /// Creates an empty file with the given name in this directory, unless the directory has
    /// the name.
    pub fn create(&self, name: &str) -> (new: Result<Option<SharedInode>, Refused>)
        ensures
            exists|s: FsView| #[trigger]
                self.may_find(s) && self.took_turn(s, after_create(s, self.inode(), name@))
                    && shared_create_outcome(s, self, name@, new),
    {
        let mut guard = lock(&self.fs);
        let ghost s = held(guard);
        let result = self.inode.create_held(&mut guard, name);
        assert(self.may_find(s));
        unlock(&self.fs, guard);
        match result {
            Ok(Some(inode)) => Ok(Some(self.sibling(inode))),
            Ok(None) => Ok(None),
            Err(refused) => Err(refused),
        }
    }

    /// Gives the file with the name `old_name` in this directory the name `new_name` too.
    pub fn link(&self, old_name: &str, new_name: &str) -> (code: Result<isize, Refused>)
        ensures
            exists|s: FsView| #[trigger]
                self.may_find(s) && self.took_turn(
                    s,
                    after_link(s, self.inode(), old_name@, new_name@),
                ) && link_outcome(s, self.inode(), old_name@, new_name@, code),
    {
        let mut guard = lock(&self.fs);
        let ghost s = held(guard);
        let code = self.inode.link_held(&mut guard, old_name, new_name);
        assert(self.may_find(s));
        unlock(&self.fs, guard);
        code
    }

    /// Takes the given name out of this directory. A file that has no name left is deleted.
    pub fn unlink(&self, name: &str) -> (code: Result<isize, Refused>)
        ensures
            exists|s: FsView| #[trigger]
                self.may_find(s) && self.took_turn(s, after_unlink(s, self.inode(), name@))
                    && unlink_outcome(s, self.inode(), name@, code),
    {
        let mut guard = lock(&self.fs);
        let ghost s = held(guard);
        let code = self.inode.unlink_held(&mut guard, name);
        assert(self.may_find(s));
        unlock(&self.fs, guard);
        code
    }

    /// The names in this directory, in the order of the entries.
    pub fn ls(&self) -> (names: Result<Vec<String>, Refused>)
        ensures
            exists|s: FsView| #[trigger]
                self.may_find(s) && self.took_turn(s, s)
                    && ls_outcome(s, self.inode(), names),
    {
        let mut guard = lock(&self.fs);
        let ghost s = held(guard);
        let names = self.inode.ls_held(&mut guard);
        assert(self.may_find(s));
        unlock(&self.fs, guard);
        names
    }

    /// Reads the contents from `offset` on into `buf`, as far as both reach, and gives the
    /// number of bytes.
    pub fn read_at(&self, offset: usize, buf: &mut [u8]) -> (n: Result<usize, Refused>)
        ensures
            exists|s: FsView| #[trigger]
                self.may_find(s) && self.took_turn(s, s)
                    && read_outcome(s, self.inode(), offset as int, old(buf)@, final(buf)@, n),
    {
        let mut guard = lock(&self.fs);
        let ghost s = held(guard);
        let n = self.inode.read_held(&mut guard, offset, buf);
        assert(self.may_find(s));
        unlock(&self.fs, guard);
        n
    }

    /// Writes `buf` into the contents at `offset`, which then end behind it, and gives the
    /// number of bytes.
    pub fn write_at(&self, offset: usize, buf: &[u8]) -> (n: Result<usize, Refused>)
        ensures
            exists|s: FsView| #[trigger]
                self.may_find(s) && self.took_turn(
                    s,
                    after_write(s, self.inode(), offset as int, buf@),
                ) && write_outcome(s, self.inode(), offset as int, buf@.len() as int, n),
    {
        let mut guard = lock(&self.fs);
        let ghost s = held(guard);
        let n = self.inode.write_held(&mut guard, offset, buf);
        assert(self.may_find(s));
        unlock(&self.fs, guard);
        n
    }

    /// Empties the file and frees all its blocks, those that it was cut off from among them.
    pub fn clear(&self) -> (done: Result<(), Refused>)
        ensures
            exists|s: FsView| #[trigger]
                self.may_find(s) && self.took_turn(s, after_clear(s, self.inode()))
                    && (done is Ok <==> self.inode().valid(s)),
    {
        let mut guard = lock(&self.fs);
        let ghost s = held(guard);
        let done = self.inode.clear_held(&mut guard);
        assert(self.may_find(s));
        unlock(&self.fs, guard);
        done
    }

    /// The number of the inode.
    pub fn get_inode_id(&self) -> (inode_id: usize)
        ensures
            inode_id == self.inode().id(),
    {
        self.inode.get_inode_id()
    }

    /// The kind of the inode.
    pub fn get_inode_type(&self) -> (kind: Result<DiskInodeType, Refused>)
        ensures
            exists|s: FsView| #[trigger]
                self.may_find(s) && self.took_turn(s, s)
                    && kind_outcome(s, self.inode(), kind),
    {
        let mut guard = lock(&self.fs);
        let ghost s = held(guard);
        let kind = self.inode.type_held(&mut guard);
        assert(self.may_find(s));
        unlock(&self.fs, guard);
        kind
    }

    /// The link count, as the file system has it when it is asked.
    pub fn get_nlink(&self) -> (nlink: Result<usize, Refused>)
        ensures
            exists|s: FsView| #[trigger]
                self.may_find(s) && self.took_turn(s, s)
                    && nlink_outcome(s, self.inode(), nlink),
    {
        let mut guard = lock(&self.fs);
        let ghost s = held(guard);
        let nlink = self.inode.nlink_held(&mut guard);
        assert(self.may_find(s));
        unlock(&self.fs, guard);
        nlink
    }

    /// Whether a write-back to the device is due; it is then taken as done.
    pub fn take_sync_due(&self) -> (due: bool)
        ensures
            exists|s: FsView| #[trigger]
                self.may_find(s) && self.took_turn(
                    s,
                    (FsView { sync_due: false, ..s }),
                ) && due == s.sync_due,
    {
        let mut guard = lock(&self.fs);
        let ghost s = held(guard);
        let due: bool = take_sync_held(&mut guard);
        assert(self.may_find(s));
        unlock(&self.fs, guard);
        due
    }
}

} // verus!
