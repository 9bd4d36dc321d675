//! The file system: the inodes and the data blocks, and what is free of both.
use crate::bitmap;
use crate::bitmap::Bitmap;
use crate::layout::{DataArea, DiskInode};
use crate::model;
use crate::model::{DiskInodeType, FileView, BLOCK_SZ};
use crate::seqs;
use vstd::prelude::*;

verus! {

/// The bytes of an inode in the inode area.
pub const INODE_SZ: usize = 128;

/// How many inodes a block of the inode area holds.
pub const INODES_PER_BLOCK: usize = 4;

/// The block number that the inode area may at most start with.
pub const INODE_AREA_START_MAX: u32 = 0x4000_0000;

/// What a file system holds.
#[verifier::ext_equal]
pub struct FsView {
    /// The file of every inode.
    pub files: Seq<FileView>,
    /// Which inodes are in use.
    pub inode_used: Seq<bool>,
    /// How many data blocks are free.
    pub free_blocks: nat,
    /// The number of the first block of the inode area.
    pub inode_area_start: int,
    /// Whether a write-back of the cached blocks to the device is due.
    pub sync_due: bool,
}

impl FsView {
    pub open spec fn wf(self) -> bool {
        &&& self.inode_used.len() == self.files.len()
        &&& self.files.len() <= u32::MAX
        &&& 0 <= self.inode_area_start <= INODE_AREA_START_MAX
        &&& forall|i: int| 0 <= i < self.files.len() ==> (#[trigger] self.files[i]).wf()
    }

    /// The block that holds inode `inode_id`, and the offset of the inode in it.
    pub open spec fn inode_pos(self, inode_id: int) -> (int, int) {
        (
            self.inode_area_start + inode_id / INODES_PER_BLOCK as int,
            (inode_id % INODES_PER_BLOCK as int) * INODE_SZ,
        )
    }

    /// The inode that stands in block `block_id` at offset `block_offset`.
    pub open spec fn inode_at(self, block_id: int, block_offset: int) -> int {
        (block_id - self.inode_area_start) * INODES_PER_BLOCK + block_offset / INODE_SZ as int
    }

    /// Whether an inode stands in block `block_id` at offset `block_offset`.
    pub open spec fn is_inode_pos(self, block_id: int, block_offset: int) -> bool {
        &&& self.inode_area_start <= block_id
        &&& 0 <= block_offset < BLOCK_SZ
        &&& block_offset % INODE_SZ as int == 0
        &&& self.inode_at(block_id, block_offset) < self.files.len()
    }

    /// The least inode that is not in use, or the number of inodes if all are in use.
    pub open spec fn next_inode(self) -> int {
        bitmap::first_clear(self.inode_used)
    }

    /// How many more blocks file `i` would occupy with `size` bytes.
    pub open spec fn blocks_needed(self, i: int, size: int) -> int {
        model::block_count(size) - model::block_count(self.files[i].size as int)
    }

    /// The file system with another file in place of file `i`.
    pub open spec fn with_file(self, i: int, file: FileView) -> FsView {
        FsView { files: self.files.update(i, file), ..self }
    }

    /// The file system with file `i` cut off or extended to `size` bytes. Blocks come out of
    /// the free ones when the file grows; a file that shrinks keeps its blocks.
    pub open spec fn resized(self, i: int, size: int) -> FsView {
        FsView {
            files: self.files.update(i, self.files[i].resized(size)),
            free_blocks: if size > self.files[i].size {
                (self.free_blocks - self.blocks_needed(i, size)) as nat
            } else {
                self.free_blocks
            },
            ..self
        }
    }

    /// The file system with file `i` emptied and all its blocks freed, those that it was cut off
    /// from among them.
    pub open spec fn cleared(self, i: int) -> FsView {
        FsView {
            files: self.files.update(i, self.files[i].cleared()),
            free_blocks: (self.free_blocks + self.files[i].owned()) as nat,
            ..self
        }
    }

    /// The file system with inode `i` marked as in use or free.
    pub open spec fn with_used(self, i: int, used: bool) -> FsView {
        FsView { inode_used: self.inode_used.update(i, used), ..self }
    }

    /// The file system with a write-back due.
    pub open spec fn synced(self) -> FsView {
        FsView { sync_due: true, ..self }
    }
}

/// Positions in the inode area and inode numbers correspond one to one.
pub proof fn inode_pos_roundtrip(s: FsView, inode_id: int)
    requires
        0 <= inode_id,
    ensures
        s.inode_at(s.inode_pos(inode_id).0, s.inode_pos(inode_id).1) == inode_id,
        inode_id < s.files.len() ==> s.is_inode_pos(
            s.inode_pos(inode_id).0,
            s.inode_pos(inode_id).1,
        ),
{
}

/// No block is one of two inodes, nor twice of one.
pub open spec fn disjoint(inodes: Seq<DiskInode>) -> bool {
    forall|i: int, j: int, k: int, l: int|
        #![trigger inodes[i].blocks@[k], inodes[j].blocks@[l]]
        0 <= i < inodes.len() && 0 <= j < inodes.len() && 0 <= k < inodes[i].blocks@.len() && 0 <= l
            < inodes[j].blocks@.len() && inodes[i].blocks@[k] == inodes[j].blocks@[l] ==> i == j && k
            == l
}

/// The file of an inode.
pub open spec fn file_of(inode: DiskInode, area: DataArea) -> FileView {
    FileView {
        kind: inode.type_,
        nlink: inode.nlink,
        size: inode.size,
        raw: inode.raw(&area),
        cut_off: (inode.blocks@.len() - inode.occupied()) as nat,
    }
}

/// A file system.
pub struct EasyFileSystem {
    inode_area_start_block: u32,
    inode_bitmap: Bitmap,
    inodes: Vec<DiskInode>,
    area: DataArea,
    sync_due: bool,
}

impl View for EasyFileSystem {
    type V = FsView;

    closed spec fn view(&self) -> FsView {
        FsView {
            files: Seq::new(
                self.inodes@.len(),
                |i: int| file_of(self.inodes@[i], self.area),
            ),
            inode_used: self.inode_bitmap@,
            free_blocks: self.area.free(),
            inode_area_start: self.inode_area_start_block as int,
            sync_due: self.sync_due,
        }
    }
}

impl EasyFileSystem {
    /// The numbers of the blocks of inode `i`: those that it occupies, in order, and behind them
    /// those that it was cut off from.
    pub closed spec fn block_list(&self, i: int) -> Seq<u32> {
        self.inodes@[i].blocks@
    }

    /// Every inode has its bit, every block of an inode is in use, and no block is one of two
    /// inodes.
    pub closed spec fn wf(&self) -> bool {
        &&& self.inode_bitmap@.len() == self.inodes@.len()
        &&& self.inodes@.len() <= u32::MAX
        &&& self.inode_area_start_block <= INODE_AREA_START_MAX
        &&& self.area.wf()
        &&& forall|i: int|
            0 <= i < self.inodes@.len() ==> (#[trigger] self.inodes@[i]).wf(&self.area)
        &&& disjoint(self.inodes@)
    }

    pub proof fn lemma_view_wf(&self)
        requires
            self.wf(),
        ensures
            self@.wf(),
    {
    }

    /// A file system of `inode_count` inodes and `data_blocks` data blocks, whose inode area
    /// starts with block `inode_area_start` and is followed by the data blocks. Inode 0 is an
    /// empty directory; nothing else is in use.
    pub fn new(inode_area_start: u32, inode_count: u32, data_blocks: u32) -> (fs: Self)
        requires
            1 <= inode_count,
            inode_area_start <= INODE_AREA_START_MAX,
            inode_area_start + (inode_count + INODES_PER_BLOCK - 1) / INODES_PER_BLOCK as int
                + data_blocks <= u32::MAX,
        ensures
            fs.wf(),
            fs@.files == Seq::new(
                inode_count as nat,
                |i: int|
                    FileView::fresh(
                        if i == 0 {
                            DiskInodeType::Directory
                        } else {
                            DiskInodeType::File
                        },
                        0,
                    ),
            ),
            fs@.inode_used == Seq::new(inode_count as nat, |i: int| i == 0),
            fs@.free_blocks == data_blocks,
            fs@.inode_area_start == inode_area_start,
            !fs@.sync_due,
    {
        let inode_blocks: u32 = (inode_count - 1) / INODES_PER_BLOCK as u32 + 1;
        let area = DataArea::new(inode_area_start + inode_blocks, data_blocks);
        let mut inode_bitmap = Bitmap::new(inode_count as usize);
        let mut inodes: Vec<DiskInode> = Vec::new();
        let mut i: u32 = 0;
        while i < inode_count
            invariant
                i <= inode_count,
                inodes@.len() == i,
                forall|j: int|
                    0 <= j < i ==> {
                        &&& (#[trigger] inodes@[j]).size == 0
                        &&& inodes@[j].nlink == 0
                        &&& inodes@[j].blocks@.len() == 0
                        &&& inodes@[j].type_ == if j == 0 {
                            DiskInodeType::Directory
                        } else {
                            DiskInodeType::File
                        }
                    },
            decreases inode_count - i,
        {
            if i == 0 {
                inodes.push(DiskInode::initialize(DiskInodeType::Directory));
            } else {
                inodes.push(DiskInode::initialize(DiskInodeType::File));
            }
            i = i + 1;
        }
        proof {
            seqs::lemma_first_index_is(inode_bitmap@, bitmap::is_clear(), 0);
        }
        let _ = inode_bitmap.alloc_bit();
        let fs = EasyFileSystem {
            inode_area_start_block: inode_area_start,
            inode_bitmap,
            inodes,
            area,
            sync_due: false,
        };
        assert(fs@.inode_used =~= Seq::new(inode_count as nat, |i: int| i == 0));
        assert forall|j: int| 0 <= j < inode_count implies #[trigger] fs@.files[j]
            == FileView::fresh(
            if j == 0 {
                DiskInodeType::Directory
            } else {
                DiskInodeType::File
            },
            0,
        ) by {
            assert(fs.inodes@[j].size == 0);
            assert(fs@.files[j].raw =~= Seq::<u8>::empty());
        }
        fs
    }

    /// How many inodes there are.
    pub fn inode_count(&self) -> (n: usize)
        requires
            self.wf(),
        ensures
            n == self@.files.len(),
    {
        self.inodes.len()
    }

    /// Whether inode `i` is in use.
    pub fn inode_in_use(&self, i: usize) -> (used: bool)
        requires
            self.wf(),
            i < self@.files.len(),
        ensures
            used == self@.inode_used[i as int],
    {
        self.inode_bitmap.is_used(i)
    }

    /// Whether all inodes are in use.
    pub fn inodes_exhausted(&self) -> (full: bool)
        requires
            self.wf(),
        ensures
            full == (self@.next_inode() == self@.files.len()),
    {
        self.next_inode() == self.inodes.len()
    }

    /// The least inode that is not in use, or the number of inodes if all are in use.
    pub fn next_inode(&self) -> (i: usize)
        requires
            self.wf(),
        ensures
            i == self@.next_inode(),
    {
        self.inode_bitmap.first_clear()
    }

    /// How many data blocks are free.
    pub fn free_blocks(&self) -> (n: usize)
        requires
            self.wf(),
        ensures
            n == self@.free_blocks,
    {
        self.area.bitmap.count_clear()
    }

    /// The block that holds inode `inode_id`, and the offset of the inode in it.
    pub fn get_disk_inode_pos(&self, inode_id: u32) -> (pos: (u32, usize))
        requires
            self.wf(),
        ensures
            (pos.0 as int, pos.1 as int) == self@.inode_pos(inode_id as int),
    {
        let per_block: u32 = INODES_PER_BLOCK as u32;
        (
            self.inode_area_start_block + inode_id / per_block,
            (inode_id % per_block) as usize * INODE_SZ,
        )
    }

    /// Whether an inode stands in block `block_id` at offset `block_offset`.
    pub fn is_inode_pos(&self, block_id: usize, block_offset: usize) -> (yes: bool)
        requires
            self.wf(),
        ensures
            yes == self@.is_inode_pos(block_id as int, block_offset as int),
    {
        let start: usize = self.inode_area_start_block as usize;
        if block_id < start || block_offset >= BLOCK_SZ || block_offset % INODE_SZ != 0 {
            return false;
        }
        let blocks: usize = block_id - start;
        blocks <= self.inodes.len() / INODES_PER_BLOCK && blocks * INODES_PER_BLOCK + block_offset
            / INODE_SZ < self.inodes.len()
    }

    /// The inode that stands in block `block_id` at offset `block_offset`.
    pub fn inode_at(&self, block_id: usize, block_offset: usize) -> (i: usize)
        requires
            self.wf(),
            self@.is_inode_pos(block_id as int, block_offset as int),
        ensures
            i == self@.inode_at(block_id as int, block_offset as int),
            i < self@.files.len(),
    {
        (block_id - self.inode_area_start_block as usize) * INODES_PER_BLOCK + block_offset
            / INODE_SZ
    }

    /// Takes the least inode that is not in use.
    pub fn alloc_inode(&mut self) -> (inode_id: u32)
        requires
            old(self).wf(),
            old(self)@.next_inode() < old(self)@.files.len(),
        ensures
            final(self).wf(),
            inode_id == old(self)@.next_inode(),
            final(self)@ == old(self)@.with_used(inode_id as int, true),
    {
        match self.inode_bitmap.alloc_bit() {
            Some(i) => {
                assert(self@ =~= old(self)@.with_used(i as int, true));
                i as u32
            },
            None => 0,
        }
    }

    /// Gives inode `inode_id` back.
    pub fn dealloc_inode(&mut self, inode_id: u32)
        requires
            old(self).wf(),
            inode_id < old(self)@.files.len(),
            old(self)@.inode_used[inode_id as int],
        ensures
            final(self).wf(),
            final(self)@ == old(self)@.with_used(inode_id as int, false),
    {
        self.inode_bitmap.dealloc_bit(inode_id as usize);
        assert(self@ =~= old(self)@.with_used(inode_id as int, false));
    }

    /// Makes inode `i` an empty file of the given kind with `nlink` names.
    pub fn init_inode(&mut self, i: usize, kind: DiskInodeType, nlink: u32)
        requires
            old(self).wf(),
            i < old(self)@.files.len(),
        ensures
            final(self).wf(),
            final(self)@ == old(self)@.with_file(i as int, FileView::fresh(kind, nlink)),
    {
        let mut inode = DiskInode::initialize(kind);
        inode.nlink = nlink;
        self.inodes[i] = inode;
        assert(self@.files[i as int].raw =~= Seq::<u8>::empty());
        assert(self@ =~= old(self)@.with_file(i as int, FileView::fresh(kind, nlink)));
    }

    /// Gives inode `i` another link count.
    pub fn set_nlink(&mut self, i: usize, nlink: u32)
        requires
            old(self).wf(),
            i < old(self)@.files.len(),
        ensures
            final(self).wf(),
            final(self)@ == old(self)@.with_file(
                i as int,
                old(self)@.files[i as int].with_nlink(nlink as int),
            ),
    {
        self.inodes[i].nlink = nlink;
        proof {
            let was = old(self).inodes@[i as int];
            let now = self.inodes@[i as int];
            assert(now.raw(&self.area) =~= was.raw(&self.area));
            assert(self@ =~= old(self)@.with_file(
                i as int,
                old(self)@.files[i as int].with_nlink(nlink as int),
            ));
        }
    }

    /// Whether inode `i` is a directory.
    pub fn is_dir(&self, i: usize) -> (yes: bool)
        requires
            self.wf(),
            i < self@.files.len(),
        ensures
            yes == (self@.files[i as int].kind == DiskInodeType::Directory),
    {
        self.inodes[i].is_dir()
    }

    /// The size of inode `i`.
    pub fn size(&self, i: usize) -> (size: u32)
        requires
            self.wf(),
            i < self@.files.len(),
        ensures
            size == self@.files[i as int].size,
    {
        self.inodes[i].size
    }

    /// The link count of inode `i`.
    pub fn nlink(&self, i: usize) -> (nlink: u32)
        requires
            self.wf(),
            i < self@.files.len(),
        ensures
            nlink == self@.files[i as int].nlink,
    {
        self.inodes[i].nlink
    }

    /// Reads the bytes of inode `i` from `offset` on into `buf`, as far as both reach, and gives
    /// their number.
    pub fn read_inode(&self, i: usize, offset: usize, buf: &mut [u8]) -> (n: usize)
        requires
            self.wf(),
            i < self@.files.len(),
        ensures
            n == model::read_len(
                self@.files[i as int].size as int,
                offset as int,
                old(buf)@.len() as int,
            ),
            final(buf)@ == seqs::splice(
                old(buf)@,
                0,
                seqs::window(self@.files[i as int].raw, offset as int, n as int),
            ),
    {
        self.inodes[i].read_at(offset, buf, &self.area)
    }

    /// Writes the bytes of `buf` into inode `i` from `offset` on, as far as the inode reaches,
    /// and gives their number.
    pub fn write_inode(&mut self, i: usize, offset: usize, buf: &[u8]) -> (n: usize)
        requires
            old(self).wf(),
            i < old(self)@.files.len(),
            offset <= old(self)@.files[i as int].size,
        ensures
            final(self).wf(),
            n == model::read_len(
                old(self)@.files[i as int].size as int,
                offset as int,
                buf@.len() as int,
            ),
            final(self)@ == old(self)@.with_file(
                i as int,
                old(self)@.files[i as int].overwritten(offset as int, buf@.take(n as int)),
            ),
    {
        let n = self.inodes[i].write_at(offset, buf, &mut self.area);
        proof {
            let inodes = self.inodes@;
            let inode = inodes[i as int];
            assert(inodes == old(self).inodes@);
            assert forall|j: int| 0 <= j < inodes.len() implies (#[trigger] inodes[j]).wf(
                &self.area,
            ) by {
                assert(inodes[j].wf(&old(self).area));
                assert forall|k: int| 0 <= k < inodes[j].blocks@.len() implies self.area.in_use(
                    #[trigger] inodes[j].blocks@[k],
                ) by {
                    assert(old(self).area.in_use(inodes[j].blocks@[k]));
                }
            }
            assert forall|j: int| 0 <= j < inodes.len() && j != i implies inodes[j].raw(
                &self.area,
            ) == (#[trigger] inodes[j]).raw(&old(self).area) by {
                assert(inodes[j].wf(&old(self).area));
                let now = inodes[j].raw(&self.area);
                let was = inodes[j].raw(&old(self).area);
                assert forall|b: int| 0 <= b < now.len() implies now[b] == was[b] by {
                    let k = b / BLOCK_SZ as int;
                    let id = inodes[j].blocks@[k];
                    assert(0 <= k < inodes[j].occupied());
                    assert(old(self).area.in_use(id));
                    assert(!inode.occupies(id));
                }
                assert(now =~= was);
            }
            assert(self@ =~= old(self)@.with_file(
                i as int,
                old(self)@.files[i as int].overwritten(offset as int, buf@.take(n as int)),
            ));
        }
        n
    }

    /// Cuts off or extends inode `i` to `new_size` bytes. Growing takes the blocks that are
    /// needed out of the free ones; shrinking changes the size alone, and the inode keeps its
    /// blocks.
    pub fn increase_size(&mut self, i: usize, new_size: u32)
        requires
            old(self).wf(),
            i < old(self)@.files.len(),
            new_size > old(self)@.files[i as int].size ==> old(self)@.blocks_needed(
                i as int,
                new_size as int,
            ) <= old(self)@.free_blocks,
        ensures
            final(self).wf(),
            final(self)@ == old(self)@.resized(i as int, new_size as int),
            new_size <= old(self)@.files[i as int].size ==> forall|j: int|
                0 <= j < old(self)@.files.len() ==> #[trigger] final(self).block_list(j) == old(
                    self,
                ).block_list(j),
    {
        let size: u32 = self.inodes[i].size;
        if new_size > size {
            self.grow(i, new_size);
            return;
        }
        if new_size < size {
            self.inodes[i].size = new_size;
        }
        proof {
            let was = old(self).inodes@[i as int];
            let now = self.inodes@[i as int];
            assert(was.wf(&self.area));
            assert(now.occupied() <= was.occupied());
            assert(now.raw(&self.area) =~= old(self)@.files[i as int].resized(
                new_size as int,
            ).raw);
            assert forall|j: int| 0 <= j < self.inodes@.len() implies (
            #[trigger] self.inodes@[j]).wf(&self.area) by {
                assert(old(self).inodes@[j].wf(&self.area));
            }
            assert(disjoint(self.inodes@));
            assert(self@ =~= old(self)@.resized(i as int, new_size as int));
        }
    }

    /// Extends inode `i` to `new_size` bytes.
    fn grow(&mut self, i: usize, new_size: u32)
        requires
            old(self).wf(),
            i < old(self)@.files.len(),
            new_size > old(self)@.files[i as int].size,
            old(self)@.blocks_needed(i as int, new_size as int) <= old(self)@.free_blocks,
        ensures
            final(self).wf(),
            final(self)@ == old(self)@.resized(i as int, new_size as int),
    {
        let blocks_needed: u32 = self.inodes[i].blocks_num_needed(new_size);
        let mut v: Vec<u32> = Vec::new();
        let mut taken: u32 = 0;
        while taken < blocks_needed
            invariant
                taken <= blocks_needed,
                v@.len() == taken,
                old(self).wf(),
                blocks_needed <= old(self).area.free(),
                self.inodes == old(self).inodes,
                self.inode_bitmap == old(self).inode_bitmap,
                self.inode_area_start_block == old(self).inode_area_start_block,
                self.sync_due == old(self).sync_due,
                self.area.wf(),
                self.area.start == old(self).area.start,
                self.area.blocks == old(self).area.blocks,
                self.area.free() == old(self).area.free() - taken,
                forall|id: u32| #[trigger] old(self).area.in_use(id) ==> self.area.in_use(id),
                forall|k: int|
                    0 <= k < taken ==> {
                        &&& self.area.in_use(#[trigger] v@[k])
                        &&& !old(self).area.in_use(v@[k])
                        &&& self.area.block(v@[k]) == seqs::zeros(BLOCK_SZ as nat)
                    },
                forall|k: int, l: int|
                    0 <= k < l < taken ==> #[trigger] v@[k] != #[trigger] v@[l],
            decreases blocks_needed - taken,
        {
            let ghost before = self.area;
            let ghost v_before = v@;
            let id = self.area.alloc_data();
            v.push(id);
            taken = taken + 1;
            proof {
                assert forall|k: int| 0 <= k < taken implies {
                    &&& self.area.in_use(#[trigger] v@[k])
                    &&& !old(self).area.in_use(v@[k])
                    &&& self.area.block(v@[k]) == seqs::zeros(BLOCK_SZ as nat)
                } by {
                    if k < taken - 1 {
                        assert(before.in_use(v_before[k]));
                    } else {
                        assert(!before.in_use(id));
                    }
                }
                assert forall|other: u32| #[trigger]
                    old(self).area.in_use(other) implies self.area.in_use(other) by {
                    assert(before.in_use(other));
                }
                assert forall|k: int, l: int| 0 <= k < l < taken implies #[trigger] v@[k]
                    != #[trigger] v@[l] by {
                    assert(before.in_use(v_before[k]));
                }
            }
        }
        self.inodes[i].increase_size(new_size, v);
        proof {
            let was = old(self).inodes@[i as int];
            let now = self.inodes@[i as int];
            let n = was.occupied();
            let m = v@.len() as int;
            assert(was.wf(&old(self).area));
            assert(now.blocks@.len() == was.blocks@.len() + m);
            assert forall|k: int| 0 <= k < now.blocks@.len() implies #[trigger] now.blocks@[k]
                == if k < n {
                was.blocks@[k]
            } else if k < n + m {
                v@[k - n]
            } else {
                was.blocks@[k - m]
            } by {}
            assert forall|k: int| 0 <= k < was.blocks@.len() implies old(self).area.in_use(
                #[trigger] was.blocks@[k],
            ) && self.area.in_use(was.blocks@[k]) by {}
            assert forall|k: int| 0 <= k < now.blocks@.len() implies self.area.in_use(
                #[trigger] now.blocks@[k],
            ) by {
                if n <= k < n + m {
                    assert(self.area.in_use(v@[k - n]));
                }
            }
            assert forall|k: int, l: int| 0 <= k < l < now.blocks@.len() implies #[trigger] now.blocks@[k]
                != #[trigger] now.blocks@[l] by {
                let new_k = n <= k < n + m;
                let new_l = n <= l < n + m;
                if new_k && new_l {
                    assert(v@[k - n] != v@[l - n]);
                } else if new_k {
                    assert(!old(self).area.in_use(v@[k - n]));
                } else if new_l {
                    assert(!old(self).area.in_use(v@[l - n]));
                } else {
                    assert(was.blocks@[if k < n { k } else { k - m }] != was.blocks@[if l < n {
                        l
                    } else {
                        l - m
                    }]);
                }
            }
            assert forall|j: int| 0 <= j < self.inodes@.len() implies (
            #[trigger] self.inodes@[j]).wf(&self.area) by {
                if j != i {
                    assert(old(self).inodes@[j].wf(&old(self).area));
                    assert forall|k: int|
                        0 <= k < self.inodes@[j].blocks@.len() implies self.area.in_use(
                        #[trigger] self.inodes@[j].blocks@[k],
                    ) by {
                        assert(old(self).area.in_use(old(self).inodes@[j].blocks@[k]));
                    }
                }
            }
            let inodes = self.inodes@;
            let olds = old(self).inodes@;
            assert forall|b: int, k: int, l: int|
                0 <= b < inodes.len() && b != i && 0 <= k < now.blocks@.len() && 0 <= l
                    < inodes[b].blocks@.len() implies #[trigger] now.blocks@[k]
                != #[trigger] inodes[b].blocks@[l] by {
                assert(olds[b].wf(&old(self).area));
                assert(old(self).area.in_use(olds[b].blocks@[l]));
                if n <= k < n + m {
                    assert(!old(self).area.in_use(v@[k - n]));
                } else {
                    assert(olds[i as int].blocks@[if k < n { k } else { k - m }]
                        != olds[b].blocks@[l]);
                }
            }
            assert forall|a: int, b: int, k: int, l: int|
                #![trigger inodes[a].blocks@[k], inodes[b].blocks@[l]]
                0 <= a < inodes.len() && 0 <= b < inodes.len() && 0 <= k < inodes[a].blocks@.len()
                    && 0 <= l < inodes[b].blocks@.len() && inodes[a].blocks@[k]
                    == inodes[b].blocks@[l] implies a == b && k == l by {
                if a == i && b == i {
                    if k < l {
                        assert(now.blocks@[k] != now.blocks@[l]);
                    } else if l < k {
                        assert(now.blocks@[l] != now.blocks@[k]);
                    }
                } else if a == i {
                    assert(now.blocks@[k] != inodes[b].blocks@[l]);
                } else if b == i {
                    assert(now.blocks@[l] != inodes[a].blocks@[k]);
                } else {
                    assert(olds[a].blocks@[k] == olds[b].blocks@[l]);
                }
            }
            let file = old(self)@.files[i as int];
            let raw = now.raw(&self.area);
            assert forall|b: int| 0 <= b < raw.len() implies raw[b] == file.resized(
                new_size as int,
            ).raw[b] by {
                let k = b / BLOCK_SZ as int;
                assert(0 <= k < now.occupied());
                if k < n {
                    assert(now.blocks@[k] == was.blocks@[k]);
                } else {
                    assert(now.blocks@[k] == v@[k - n]);
                    assert(self.area.block(v@[k - n]) == seqs::zeros(BLOCK_SZ as nat));
                }
            }
            assert(raw =~= file.resized(new_size as int).raw);
            assert forall|j: int| 0 <= j < inodes.len() && j != i implies inodes[j].raw(
                &self.area,
            ) == (#[trigger] olds[j]).raw(&old(self).area) by {
                assert(inodes[j].raw(&self.area) =~= olds[j].raw(&old(self).area));
            }
            assert(self@ =~= old(self)@.resized(i as int, new_size as int));
        }
    }

    /// Empties inode `i` and frees all its blocks, those that it was cut off from among them.
    pub fn clear_inode(&mut self, i: usize)
        requires
            old(self).wf(),
            i < old(self)@.files.len(),
        ensures
            final(self).wf(),
            final(self)@ == old(self)@.cleared(i as int),
    {
        let blocks = self.inodes[i].clear_size();
        let ghost was = old(self).inodes@[i as int];
        let ghost olds = old(self).inodes@;
        let ghost inodes = self.inodes@;
        assert(was.wf(&old(self).area));
        let mut freed: usize = 0;
        while freed < blocks.len()
            invariant
                freed <= blocks@.len(),
                old(self).wf(),
                0 <= i < olds.len(),
                olds == old(self).inodes@,
                was == olds[i as int],
                was.wf(&old(self).area),
                blocks@ == was.blocks@,
                inodes == self.inodes@,
                self.inode_bitmap == old(self).inode_bitmap,
                self.inode_area_start_block == old(self).inode_area_start_block,
                self.sync_due == old(self).sync_due,
                self.area.wf(),
                self.area.start == old(self).area.start,
                self.area.blocks@.len() == old(self).area.blocks@.len(),
                self.area.free() == old(self).area.free() + freed,
                forall|id: u32|
                    old(self).area.in_use(id) && !blocks@.take(freed as int).contains(id) ==> {
                        &&& #[trigger] self.area.in_use(id)
                        &&& self.area.block(id) == old(self).area.block(id)
                    },
            decreases blocks@.len() - freed,
        {
            let id: u32 = blocks[freed];
            let ghost before = self.area;
            proof {
                assert(id == was.blocks@[freed as int]);
                assert(old(self).area.in_use(id));
                assert(!blocks@.take(freed as int).contains(id)) by {
                    if blocks@.take(freed as int).contains(id) {
                        let k = blocks@.take(freed as int).index_of(id);
                        assert(was.blocks@[k] == was.blocks@[freed as int]);
                    }
                }
            }
            self.area.dealloc_data(id);
            freed = freed + 1;
            proof {
                let done = blocks@.take(freed as int);
                assert forall|other: u32|
                    old(self).area.in_use(other) && !done.contains(other) implies {
                    &&& #[trigger] self.area.in_use(other)
                    &&& self.area.block(other) == old(self).area.block(other)
                } by {
                    assert(done[freed - 1] == id);
                    if blocks@.take(freed - 1).contains(other) {
                        let k = blocks@.take(freed - 1).index_of(other);
                        assert(done[k] == other);
                    }
                    assert(before.in_use(other));
                    assert(other != id);
                }
            }
        }
        proof {
            assert(blocks@.take(freed as int) =~= blocks@);
            assert forall|j: int| 0 <= j < inodes.len() implies (#[trigger] inodes[j]).wf(
                &self.area,
            ) && (j != i ==> inodes[j].raw(&self.area) == olds[j].raw(&old(self).area)) by {
                if j != i {
                    assert(olds[j].wf(&old(self).area));
                    assert forall|k: int| 0 <= k < olds[j].blocks@.len() implies self.area.in_use(
                        #[trigger] olds[j].blocks@[k],
                    ) && self.area.block(olds[j].blocks@[k]) == old(self).area.block(
                        olds[j].blocks@[k],
                    ) by {
                        let id = olds[j].blocks@[k];
                        assert(old(self).area.in_use(id));
                        if blocks@.contains(id) {
                            let l = blocks@.index_of(id);
                            assert(olds[i as int].blocks@[l] == olds[j].blocks@[k]);
                        }
                    }
                    let now = inodes[j].raw(&self.area);
                    let then_ = olds[j].raw(&old(self).area);
                    assert forall|b: int| 0 <= b < now.len() implies now[b] == then_[b] by {
                        let k = b / BLOCK_SZ as int;
                        assert(0 <= k < olds[j].occupied());
                        assert(self.area.in_use(olds[j].blocks@[k]));
                    }
                    assert(now =~= then_);
                }
            }
            assert(disjoint(inodes));
            assert(self@.files[i as int].raw =~= Seq::<u8>::empty());
            assert(self@ =~= old(self)@.cleared(i as int));
        }
    }

    /// Asks for the cached blocks to be written back to the device.
    pub fn block_cache_sync_all(&mut self)
        requires
            old(self).wf(),
        ensures
            final(self).wf(),
            final(self)@ == old(self)@.synced(),
    {
        self.sync_due = true;
        assert(self@ =~= old(self)@.synced());
    }

    /// Whether a write-back is due; it is then taken as done.
    pub fn take_sync_due(&mut self) -> (due: bool)
        requires
            old(self).wf(),
        ensures
            final(self).wf(),
            due == old(self)@.sync_due,
            final(self)@ == (FsView { sync_due: false, ..old(self)@ }),
    {
        let due: bool = self.sync_due;
        self.sync_due = false;
        assert(self@ =~= (FsView { sync_due: false, ..old(self)@ }));
        due
    }
}

} // verus!
