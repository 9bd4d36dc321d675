//! The data blocks of a file system, and the inodes that say which of them a file occupies.
use crate::bitmap;
use crate::bitmap::Bitmap;
use crate::model;
use crate::model::{DiskInodeType, BLOCK_SZ};
use crate::seqs;
use vstd::prelude::*;

verus! {

/// The data blocks, with the bitmap of those in use. Blocks are known by number, from `start`
/// on.
pub struct DataArea {
    pub start: u32,
    pub bitmap: Bitmap,
    pub blocks: Vec<Vec<u8>>,
}

impl DataArea {
    /// Every block has its bit and its bytes, and free blocks are zero.
    pub open spec fn wf(&self) -> bool {
        &&& self.bitmap@.len() == self.blocks@.len()
        &&& self.start + self.blocks@.len() <= u32::MAX
        &&& forall|b: int|
            0 <= b < self.blocks@.len() ==> (#[trigger] self.blocks@[b])@.len() == BLOCK_SZ
        &&& forall|b: int|
            0 <= b < self.blocks@.len() && !self.bitmap@[b] ==> (#[trigger] self.blocks@[b])@
                == seqs::zeros(BLOCK_SZ as nat)
    }

    /// Whether `id` is the number of a data block in use.
    pub open spec fn in_use(&self, id: u32) -> bool {
        &&& self.start <= id < self.start + self.blocks@.len()
        &&& self.bitmap@[id - self.start]
    }

    /// The bytes of block `id`.
    pub open spec fn block(&self, id: u32) -> Seq<u8> {
        self.blocks@[id - self.start]@
    }

    /// How many blocks are free.
    pub open spec fn free(&self) -> nat {
        bitmap::clear_count(self.bitmap@)
    }

    /// `n` free blocks with the numbers from `start` on.
    pub fn new(start: u32, n: u32) -> (area: Self)
        requires
            start + n <= u32::MAX,
        ensures
            area.wf(),
            area.start == start,
            area.blocks@.len() == n,
            area.free() == n,
    {
        let bitmap = Bitmap::new(n as usize);
        let mut blocks: Vec<Vec<u8>> = Vec::new();
        let mut b: u32 = 0;
        while b < n
            invariant
                b <= n,
                blocks@.len() == b,
                forall|j: int|
                    0 <= j < b ==> (#[trigger] blocks@[j])@ == seqs::zeros(BLOCK_SZ as nat),
            decreases n - b,
        {
            blocks.push(zero_block());
            b = b + 1;
        }
        proof {
            lemma_all_clear(n as nat);
        }
        DataArea { start, bitmap, blocks }
    }

    /// Takes a free block and gives its number.
    pub fn alloc_data(&mut self) -> (id: u32)
        requires
            old(self).wf(),
            old(self).free() > 0,
        ensures
            final(self).wf(),
            final(self).start == old(self).start,
            final(self).blocks == old(self).blocks,
            !old(self).in_use(id),
            final(self).in_use(id),
            final(self).bitmap@ == old(self).bitmap@.update(id - old(self).start, true),
            final(self).block(id) == seqs::zeros(BLOCK_SZ as nat),
            final(self).free() == old(self).free() - 1,
    {
        proof {
            seqs::lemma_count_bounds(self.bitmap@, bitmap::is_clear());
        }
        match self.bitmap.alloc_bit() {
            Some(bit) => {
                proof {
                    seqs::lemma_count_update(
                        old(self).bitmap@,
                        bitmap::is_clear(),
                        bit as int,
                        true,
                    );
                }
                self.start + bit as u32
            },
            None => 0,
        }
    }

    /// Gives block `id` back, zeroed.
    pub fn dealloc_data(&mut self, id: u32)
        requires
            old(self).wf(),
            old(self).in_use(id),
        ensures
            final(self).wf(),
            final(self).start == old(self).start,
            final(self).bitmap@ == old(self).bitmap@.update(id - old(self).start, false),
            final(self).blocks@.len() == old(self).blocks@.len(),
            forall|b: int|
                0 <= b < old(self).blocks@.len() && b != id - old(self).start
                    ==> #[trigger] final(self).blocks@[b] == old(self).blocks@[b],
            final(self).free() == old(self).free() + 1,
    {
        let bit: usize = (id - self.start) as usize;
        self.bitmap.dealloc_bit(bit);
        self.blocks[bit] = zero_block();
        proof {
            seqs::lemma_count_update(old(self).bitmap@, bitmap::is_clear(), bit as int, false);
        }
    }
}

/// In a bitmap of free items all items are free.
proof fn lemma_all_clear(n: nat)
    ensures
        bitmap::clear_count(Seq::new(n, |i: int| false)) == n,
    decreases n,
{
    let s = Seq::new(n, |i: int| false);
    if n > 0 {
        lemma_all_clear((n - 1) as nat);
        assert(s.drop_last() =~= Seq::new((n - 1) as nat, |i: int| false));
    }
}

/// A block of zero bytes.
fn zero_block() -> (block: Vec<u8>)
    ensures
        block@ == seqs::zeros(BLOCK_SZ as nat),
{
    let mut block: Vec<u8> = Vec::new();
    let mut i: usize = 0;
    while i < BLOCK_SZ
        invariant
            i <= BLOCK_SZ,
            block@ == seqs::zeros(i as nat),
        decreases BLOCK_SZ - i,
    {
        block.push(0);
        i = i + 1;
        assert(block@ =~= seqs::zeros(i as nat));
    }
    block
}

/// An inode: what kind of file it is, how many names it has, its size, and the numbers of its
/// blocks. As many of them as the size needs hold its bytes, in order; those behind were cut off
/// when the inode shrank, and are the inode's until it is cleared.
pub struct DiskInode {
    pub size: u32,
    pub nlink: u32,
    pub type_: DiskInodeType,
    pub blocks: Vec<u32>,
}

impl DiskInode {
    /// How many blocks the inode occupies.
    pub open spec fn occupied(&self) -> int {
        model::block_count(self.size as int)
    }

    /// The blocks of the inode are in use, and each is there once.
    pub open spec fn wf(&self, area: &DataArea) -> bool {
        &&& self.occupied() <= self.blocks@.len()
        &&& forall|k: int| 0 <= k < self.blocks@.len() ==> area.in_use(#[trigger] self.blocks@[k])
        &&& forall|k: int, l: int|
            0 <= k < l < self.blocks@.len() ==> #[trigger] self.blocks@[k]
                != #[trigger] self.blocks@[l]
    }

    /// Whether the inode occupies block `id`.
    pub open spec fn occupies(&self, id: u32) -> bool {
        exists|k: int| 0 <= k < self.occupied() && #[trigger] self.blocks@[k] == id
    }

    /// The bytes of the blocks that the inode occupies.
    pub open spec fn raw(&self, area: &DataArea) -> Seq<u8> {
        Seq::new(
            (self.occupied() * BLOCK_SZ) as nat,
            |i: int| area.block(self.blocks@[i / BLOCK_SZ as int])[i % BLOCK_SZ as int],
        )
    }

    /// An inode without contents and without a name.
    pub fn initialize(type_: DiskInodeType) -> (inode: Self)
        ensures
            inode.size == 0,
            inode.nlink == 0,
            inode.type_ == type_,
            inode.blocks@.len() == 0,
    {
        DiskInode { size: 0, nlink: 0, type_, blocks: Vec::new() }
    }

    /// Whether it is a directory.
    pub fn is_dir(&self) -> (yes: bool)
        ensures
            yes == (self.type_ == DiskInodeType::Directory),
    {
        self.type_ == DiskInodeType::Directory
    }

    /// How many blocks a file of `size` bytes occupies.
    pub fn total_blocks(size: u32) -> (n: u32)
        ensures
            n == model::block_count(size as int),
    {
        let block: u32 = BLOCK_SZ as u32;
        if size % block == 0 {
            size / block
        } else {
            size / block + 1
        }
    }

    /// How many blocks are needed beyond those occupied to grow to `new_size` bytes.
    pub fn blocks_num_needed(&self, new_size: u32) -> (n: u32)
        requires
            new_size >= self.size,
        ensures
            n == model::block_count(new_size as int) - self.occupied(),
    {
        Self::total_blocks(new_size) - Self::total_blocks(self.size)
    }

    /// Grows to `new_size` bytes; `new_blocks` become the blocks behind those occupied, in front of
    /// those that were cut off.
    pub fn increase_size(&mut self, new_size: u32, new_blocks: Vec<u32>)
        requires
            old(self).occupied() <= old(self).blocks@.len(),
            new_size >= old(self).size,
            new_blocks@.len() == model::block_count(new_size as int) - old(self).occupied(),
        ensures
            final(self).size == new_size,
            final(self).nlink == old(self).nlink,
            final(self).type_ == old(self).type_,
            final(self).blocks@ == old(self).blocks@.take(old(self).occupied()) + new_blocks@
                + old(self).blocks@.skip(old(self).occupied()),
    {
        let mut new_blocks = new_blocks;
        let mut cut_off = self.blocks.split_off(Self::total_blocks(self.size) as usize);
        self.blocks.append(&mut new_blocks);
        self.blocks.append(&mut cut_off);
        self.size = new_size;
    }

    /// Shrinks to no bytes and gives all blocks away, those that were cut off before among them.
    pub fn clear_size(&mut self) -> (blocks: Vec<u32>)
        ensures
            final(self).size == 0,
            final(self).nlink == old(self).nlink,
            final(self).type_ == old(self).type_,
            final(self).blocks@.len() == 0,
            blocks@ == old(self).blocks@,
    {
        let mut blocks: Vec<u32> = Vec::new();
        blocks.append(&mut self.blocks);
        self.size = 0;
        assert(blocks@ =~= old(self).blocks@);
        blocks
    }

    /// Reads the bytes from `offset` on into `buf`, as far as both reach, and gives their
    /// number.
    pub fn read_at(&self, offset: usize, buf: &mut [u8], area: &DataArea) -> (n: usize)
        requires
            area.wf(),
            self.wf(area),
        ensures
            n == model::read_len(self.size as int, offset as int, old(buf)@.len() as int),
            final(buf)@ == seqs::splice(
                old(buf)@,
                0,
                seqs::window(self.raw(area), offset as int, n as int),
            ),
    {
        let size: usize = self.size as usize;
        if offset >= size {
            assert(buf@ =~= seqs::splice(
                old(buf)@,
                0,
                seqs::window(self.raw(area), offset as int, 0),
            ));
            return 0;
        }
        let n: usize = if buf.len() <= size - offset {
            buf.len()
        } else {
            size - offset
        };
        let mut i: usize = 0;
        while i < n
            invariant
                i <= n <= buf@.len(),
                buf@.len() == old(buf)@.len(),
                offset + n <= self.size,
                area.wf(),
                self.wf(area),
                buf@ == seqs::splice(
                    old(buf)@,
                    0,
                    seqs::window(self.raw(area), offset as int, i as int),
                ),
            decreases n - i,
        {
            let at: usize = offset + i;
            assert(0 <= (at / BLOCK_SZ) < self.occupied());
            let id: u32 = self.blocks[at / BLOCK_SZ];
            assert(area.in_use(id));
            let block = &area.blocks[(id - area.start) as usize];
            buf[i] = block[at % BLOCK_SZ];
            i = i + 1;
            assert(buf@ =~= seqs::splice(
                old(buf)@,
                0,
                seqs::window(self.raw(area), offset as int, i as int),
            ));
        }
        n
    }

    /// Writes the bytes of `buf` from `offset` on, as far as the inode reaches, and gives their
    /// number.
    pub fn write_at(&self, offset: usize, buf: &[u8], area: &mut DataArea) -> (n: usize)
        requires
            old(area).wf(),
            self.wf(old(area)),
            offset <= self.size,
        ensures
            n == model::read_len(self.size as int, offset as int, buf@.len() as int),
            final(area).wf(),
            final(area).start == old(area).start,
            final(area).bitmap == old(area).bitmap,
            final(area).blocks@.len() == old(area).blocks@.len(),
            self.wf(final(area)),
            self.raw(final(area)) == seqs::splice(
                self.raw(old(area)),
                offset as int,
                buf@.take(n as int),
            ),
            forall|id: u32|
                old(area).in_use(id) && !self.occupies(id) ==> #[trigger] final(area).block(id)
                    == old(area).block(id),
    {
        let size: usize = self.size as usize;
        let n: usize = if buf.len() <= size - offset {
            buf.len()
        } else {
            size - offset
        };
        let mut i: usize = 0;
        assert(self.raw(area) =~= seqs::splice(
            self.raw(old(area)),
            offset as int,
            buf@.take(0),
        ));
        while i < n
            invariant
                i <= n <= buf@.len(),
                offset + n <= self.size,
                area.wf(),
                area.start == old(area).start,
                area.bitmap == old(area).bitmap,
                area.blocks@.len() == old(area).blocks@.len(),
                self.wf(area),
                self.raw(area) == seqs::splice(
                    self.raw(old(area)),
                    offset as int,
                    buf@.take(i as int),
                ),
                forall|id: u32|
                    old(area).in_use(id) && !self.occupies(id) ==> #[trigger] area.block(id)
                        == old(area).block(id),
            decreases n - i,
        {
            let at: usize = offset + i;
            let k: usize = at / BLOCK_SZ;
            assert(0 <= k < self.occupied());
            let id: u32 = self.blocks[k];
            assert(area.in_use(id));
            let b: usize = (id - area.start) as usize;
            let ghost before = *area;
            area.blocks[b][at % BLOCK_SZ] = buf[i];
            i = i + 1;
            proof {
                assert(forall|c: int|
                    0 <= c < area.blocks@.len() && c != b ==> #[trigger] area.blocks@[c]
                        == before.blocks@[c]);
                assert(area.blocks@[b as int]@ == before.blocks@[b as int]@.update(
                    at as int % BLOCK_SZ as int,
                    buf@[i - 1],
                ));
                let now = self.raw(area);
                let want = seqs::splice(self.raw(old(area)), offset as int, buf@.take(i as int));
                assert forall|j: int| 0 <= j < now.len() implies now[j] == want[j] by {
                    let was = self.raw(&before)[j];
                    let kj = j / BLOCK_SZ as int;
                    assert(0 <= kj < self.occupied());
                    assert(area.in_use(self.blocks@[kj]));
                    if kj != k {
                        assert(self.blocks@[kj] != id);
                        assert(now[j] == was);
                    } else if j != at {
                        assert(j % BLOCK_SZ as int != at as int % BLOCK_SZ as int);
                        assert(now[j] == was);
                    }
                }
                assert(now =~= want);
                assert forall|other: u32|
                    old(area).in_use(other) && !self.occupies(
                        other,
                    ) implies #[trigger] area.block(other) == old(area).block(other) by {
                    assert(self.occupies(id));
                    assert(before.block(other) == old(area).block(other));
                }
            }
        }
        n
    }
}

} // verus!
