//! What each operation makes of the files, said of their sizes, their bytes and their entries, one
//! by one.
use crate::bitmap;
use crate::dirent;
use crate::efs;
use crate::efs::FsView;
use crate::fs_laws;
use crate::model;
use crate::model::{DiskInodeType, FileView};
use crate::seqs;
use crate::shared;
use crate::shared::{Refused, SharedInode};
use crate::vfs::Inode;
use std::sync::Arc;
use vstd::prelude::*;
use vstd::utf8::*;

verus! {

/// How many blocks of 512 bytes `size` bytes need.
pub open spec fn blocks_for(size: int) -> int {
    (size + 511) / 512
}

/// The contents of a file are its first bytes, as many as its size.
pub proof fn content_is(f: FileView)
    requires
        f.wf(),
    ensures
        f.content().len() == f.size,
        forall|k: int| 0 <= k < f.size ==> #[trigger] f.content()[k] == f.raw[k],
        f.raw.len() == blocks_for(f.size as int) * 512,
        f.owned() == blocks_for(f.size as int) + f.cut_off,
{
}

/// A read gets the bytes of the file from its offset on: none behind the end, and otherwise as many
/// as were asked for or as there are. The rest of the buffer is as before.
pub proof fn read_effect(f: FileView, offset: int, buf: Seq<u8>)
    requires
        f.wf(),
        0 <= offset,
    ensures
        ({
            let n = model::read_len(f.size as int, offset, buf.len() as int);
            let t = seqs::splice(buf, 0, seqs::window(f.content(), offset, n));
            &&& 0 <= n <= buf.len()
            &&& offset >= f.size ==> n == 0
            &&& offset < f.size ==> n <= f.size - offset && (n == buf.len() || n == f.size
                - offset)
            &&& t.len() == buf.len()
            &&& forall|k: int| 0 <= k < n ==> #[trigger] t[k] == f.raw[offset + k]
            &&& forall|k: int| n <= k < buf.len() ==> #[trigger] t[k] == buf[k]
        }),
{
}

/// A write can be asked for exactly if the file would end no later than a `u32` can say, and the
/// blocks that it would need beyond those that it occupies are free.
pub proof fn write_accepts(s: FsView, i: int, offset: int, len: int)
    requires
        s.wf(),
        0 <= i < s.files.len(),
    ensures
        s.can_write(i, offset, len) <==> {
            &&& offset + len <= u32::MAX
            &&& blocks_for(offset + len) - blocks_for(s.files[i].size as int) <= s.free_blocks
        },
{
}

/// A write puts each byte at its offset. The file ends behind the last of them; in front of the
/// first it is as before, and zero in blocks that it did not occupy. It takes blocks out of the
/// free ones where it grows, and keeps those that it has where it shrinks. Its kind and its link
/// count, all other files and the inodes in use are as before. A write-back is then due.
pub proof fn write_effect(s: FsView, i: int, offset: int, bytes: Seq<u8>)
    requires
        s.wf(),
        0 <= i < s.files.len(),
        0 <= offset,
        s.can_write(i, offset, bytes.len() as int),
    ensures
        ({
            let t = s.written(i, offset, bytes);
            let was = s.files[i];
            let now = t.files[i];
            let grown = blocks_for(offset + bytes.len()) - blocks_for(was.size as int);
            &&& now.size == offset + bytes.len()
            &&& forall|k: int|
                offset <= k < offset + bytes.len() ==> #[trigger] now.raw[k] == bytes[k - offset]
            &&& forall|k: int|
                0 <= k < offset && k < was.raw.len() ==> #[trigger] now.raw[k] == was.raw[k]
            &&& forall|k: int| was.raw.len() <= k < offset ==> #[trigger] now.raw[k] == 0
            &&& forall|k: int|
                offset + bytes.len() <= k < now.raw.len() ==> #[trigger] now.raw[k] == if k
                    < was.raw.len() {
                    was.raw[k]
                } else {
                    0
                }
            &&& now.raw.len() == blocks_for(now.size as int) * 512
            &&& now.kind == was.kind
            &&& now.nlink == was.nlink
            &&& grown >= 0 ==> t.free_blocks == s.free_blocks - grown && now.cut_off == was.cut_off
            &&& grown < 0 ==> t.free_blocks == s.free_blocks && now.cut_off == was.cut_off - grown
            &&& t.files.len() == s.files.len()
            &&& forall|j: int|
                0 <= j < s.files.len() && j != i ==> #[trigger] t.files[j] == s.files[j]
            &&& t.inode_used == s.inode_used
            &&& t.inode_area_start == s.inode_area_start
            &&& t.sync_due
        }),
{
    assert(s.files[i].wf());
}

/// A file that was emptied has no bytes and no blocks; all that it had are free. Its kind and its
/// link count, all other files and the inodes in use are as before. A write-back is then due.
pub proof fn clear_effect(s: FsView, i: int)
    requires
        s.wf(),
        0 <= i < s.files.len(),
    ensures
        ({
            let t = s.cleared(i).synced();
            let was = s.files[i];
            let now = t.files[i];
            &&& now.size == 0
            &&& now.raw.len() == 0
            &&& now.cut_off == 0
            &&& now.kind == was.kind
            &&& now.nlink == was.nlink
            &&& t.free_blocks == s.free_blocks + blocks_for(was.size as int) + was.cut_off
            &&& t.files.len() == s.files.len()
            &&& forall|j: int|
                0 <= j < s.files.len() && j != i ==> #[trigger] t.files[j] == s.files[j]
            &&& t.inode_used == s.inode_used
            &&& t.inode_area_start == s.inode_area_start
            &&& t.sync_due
        }),
{
}

/// A directory holds one entry for each 32 bytes: a name of up to 28 bytes other than zero, with a
/// zero byte behind it if it is shorter, and the number of an inode in the last four bytes, least
/// significant byte first.
pub proof fn entries_are(f: FileView, k: int)
    requires
        f.wf(),
        0 <= k < f.size as int / 32,
    ensures
        f.entries().len() == f.size as int / 32,
        ({
            let entry = f.entries()[k];
            let n = entry.name.len() as int;
            &&& n <= 28
            &&& forall|j: int|
                0 <= j < n ==> #[trigger] entry.name[j] == f.raw[32 * k + j] && entry.name[j] != 0
            &&& n == 28 || f.raw[32 * k + n] == 0
            &&& entry.inode_id == f.raw[32 * k + 28] + 256 * f.raw[32 * k + 29] + 65536 * f.raw[32
                * k + 30] + 16777216 * f.raw[32 * k + 31]
        }),
{
    let b = f.entry_bytes(k);
    assert(b.len() == 32);
    assert forall|j: int| 0 <= j < 32 implies #[trigger] b[j] == f.raw[32 * k + j] by {}
    let field = b.take(28);
    let n = seqs::first_index(field, dirent::is_nul());
    seqs::lemma_first_index(field, dirent::is_nul());
    let entry = f.entries()[k];
    assert(entry == dirent::decode_entry(b));
    assert(entry.name == field.take(n));
    assert forall|j: int| 0 <= j < n implies #[trigger] entry.name[j] == f.raw[32 * k + j]
        && entry.name[j] != 0 by {
        assert(!dirent::is_nul()(field[j]));
        assert(field[j] == b[j]);
    }
    if n < 28 {
        assert(dirent::is_nul()(field[n]));
        assert(field[n] == b[n]);
    }
    let id = b.skip(28);
    assert(id[0] == b[28] && id[1] == b[29] && id[2] == b[30] && id[3] == b[31]);
}

/// A name that is looked up is found exactly if an entry has it, and stands for the inode of the
/// first entry that does.
pub proof fn lookup_is(f: FileView, name: Seq<u8>)
    ensures
        f.has(name) <==> exists|k: int|
            0 <= k < f.size as int / 32 && (#[trigger] f.entries()[k]).name == name,
        f.lookup(name) is Some <==> f.has(name),
        forall|k: int|
            0 <= k < f.size as int / 32 && (#[trigger] f.entries()[k]).name == name && (forall|
                j: int,
            |
                0 <= j < k ==> (#[trigger] f.entries()[j]).name != name) ==> f.lookup(name) == Some(
                f.entries()[k].inode_id,
            ) && f.position(name) == k,
{
    model::lemma_position(f, name);
    let p = f.position(name);
    if f.has(name) {
        assert(f.entries()[p].name == name);
    }
    assert forall|k: int|
        0 <= k < f.size as int / 32 && (#[trigger] f.entries()[k]).name == name implies f.has(
        name,
    ) by {
        if p >= f.size as int / 32 {
            assert(f.entries()[k].name != name);
        }
    }
    assert forall|k: int|
        0 <= k < f.size as int / 32 && (#[trigger] f.entries()[k]).name == name && (forall|j: int|
            0 <= j < k ==> (#[trigger] f.entries()[j]).name != name) implies f.position(name)
        == k by {
        if p < k {
            assert(f.entries()[p].name == name);
        } else if k < p {
            assert(f.entries()[k].name != name);
        }
    }
}

/// The next inode is the first that is not in use.
pub proof fn next_inode_is(s: FsView)
    requires
        s.wf(),
    ensures
        0 <= s.next_inode() <= s.files.len(),
        s.next_inode() < s.files.len() ==> !s.inode_used[s.next_inode()],
        forall|j: int| 0 <= j < s.next_inode() ==> #[trigger] s.inode_used[j],
{
    seqs::lemma_first_index(s.inode_used, bitmap::is_clear());
    let n = s.next_inode();
    if n < s.files.len() {
        assert(bitmap::is_clear()(s.inode_used[n]));
    }
    assert forall|j: int| 0 <= j < n implies #[trigger] s.inode_used[j] by {
        assert(!bitmap::is_clear()(s.inode_used[j]));
    }
}

/// What `until_nul` leaves of a name.
proof fn lemma_until_nul(name: Seq<u8>)
    ensures
        ({
            let kept = dirent::until_nul(name);
            &&& kept.len() <= name.len()
            &&& forall|j: int| 0 <= j < kept.len() ==> #[trigger] kept[j] == name[j] && name[j] != 0
            &&& kept.len() == name.len() || name[kept.len() as int] == 0
        }),
{
    seqs::lemma_first_index(name, dirent::is_nul());
    let n = seqs::first_index(name, dirent::is_nul());
    let kept = dirent::until_nul(name);
    assert forall|j: int| 0 <= j < kept.len() implies #[trigger] kept[j] == name[j] && name[j]
        != 0 by {
        assert(!dirent::is_nul()(name[j]));
    }
    if n < name.len() {
        assert(dirent::is_nul()(name[n]));
    }
}

/// Directory `g` has the entries of directory `f` and behind them one that gives inode `inode_id`
/// the name `name`, as far as it goes before a zero byte.
pub open spec fn has_gained(f: FileView, g: FileView, name: Seq<u8>, inode_id: int) -> bool {
    let n = f.size as int / 32;
    let new = g.entries()[n];
    &&& g.size == (n + 1) * 32
    &&& forall|k: int| 0 <= k < n ==> #[trigger] g.entries()[k] == f.entries()[k]
    &&& new.inode_id == inode_id
    &&& new.name.len() <= name.len()
    &&& forall|j: int| 0 <= j < new.name.len() ==> #[trigger] new.name[j] == name[j] && name[j] != 0
    &&& new.name.len() == name.len() || name[new.name.len() as int] == 0
    &&& g.kind == f.kind
    &&& g.cut_off == f.cut_off
}

/// A file can be created exactly if an inode is not in use, the name is no longer than 27 bytes,
/// and one more entry fits the directory: its size stays a `u32`, and the block that it may need is
/// free.
pub proof fn create_accepts(s: FsView, dir: int, name: Seq<u8>)
    requires
        s.wf(),
        0 <= dir < s.files.len(),
        s.next_inode() != dir,
    ensures
        s.can_create(dir, name) <==> {
            let size = (s.files[dir].size as int / 32 + 1) * 32;
            &&& exists|i: int| 0 <= i < s.files.len() && !#[trigger] s.inode_used[i]
            &&& name.len() <= 27
            &&& size <= u32::MAX
            &&& blocks_for(size) - blocks_for(s.files[dir].size as int) <= s.free_blocks
        },
{
    next_inode_is(s);
    if s.next_inode() < s.files.len() {
        assert(!s.inode_used[s.next_inode()]);
    }
}

/// A file that was created takes the first inode that was not in use, is an empty file with one
/// link, and has the last entry of the directory. All other files, and which other inodes are in
/// use, are as before. A write-back is then due.
pub proof fn create_effect(s: FsView, dir: int, name: Seq<u8>)
    requires
        s.wf(),
        0 <= dir < s.files.len(),
        s.next_inode() != dir,
        s.can_create(dir, name),
    ensures
        ({
            let t = s.created(dir, name);
            let n = s.next_inode();
            let was = s.files[dir];
            let now = t.files[dir];
            &&& 0 <= n < s.files.len()
            &&& !s.inode_used[n]
            &&& forall|j: int| 0 <= j < n ==> #[trigger] s.inode_used[j]
            &&& t.files[n].kind == DiskInodeType::File
            &&& t.files[n].nlink == 1
            &&& t.files[n].size == 0
            &&& t.files[n].raw.len() == 0
            &&& t.files[n].cut_off == 0
            &&& has_gained(was, now, name, n)
            &&& now.nlink == was.nlink
            &&& t.files.len() == s.files.len()
            &&& forall|j: int|
                0 <= j < s.files.len() && j != dir && j != n ==> #[trigger] t.files[j]
                    == s.files[j]
            &&& t.inode_used.len() == s.inode_used.len()
            &&& t.inode_used[n]
            &&& forall|j: int|
                0 <= j < s.files.len() && j != n ==> #[trigger] t.inode_used[j] == s.inode_used[j]
            &&& t.free_blocks == s.free_blocks - (blocks_for(now.size as int) - blocks_for(
                was.size as int,
            ))
            &&& t.inode_area_start == s.inode_area_start
            &&& t.sync_due
        }),
{
    next_inode_is(s);
    fs_laws::lemma_new_inode(s);
    let n = s.next_inode();
    let a = s.with_new_file();
    fs_laws::lemma_added(a, dir, name, n as u32);
    lemma_until_nul(name);
    let f = s.files[dir];
    let g = s.created(dir, name).files[dir];
    assert(g.entries().len() == f.entries().len() + 1);
    assert forall|k: int| 0 <= k < f.size as int / 32 implies #[trigger] g.entries()[k]
        == f.entries()[k] by {}
}

/// A name can be linked exactly if the old one stands for an inode whose link count can still grow,
/// the new one is no longer than 27 bytes, and one more entry fits the directory.
pub proof fn link_accepts(s: FsView, dir: int, i: int, name: Seq<u8>)
    requires
        s.wf(),
        0 <= dir < s.files.len(),
        0 <= i,
    ensures
        s.can_link(dir, i, name) <==> {
            let size = (s.files[dir].size as int / 32 + 1) * 32;
            &&& i < s.files.len()
            &&& s.files[i].nlink < u32::MAX
            &&& name.len() <= 27
            &&& size <= u32::MAX
            &&& blocks_for(size) - blocks_for(s.files[dir].size as int) <= s.free_blocks
        },
{
}

/// An inode that was linked has one link more and is otherwise as before, and the last entry of the
/// directory gives it the new name. All other files, which inodes are in use, and whether a
/// write-back is due, are as before.
pub proof fn link_effect(s: FsView, dir: int, i: int, name: Seq<u8>)
    requires
        s.wf(),
        0 <= dir < s.files.len(),
        0 <= i,
        s.can_link(dir, i, name),
    ensures
        ({
            let t = s.linked(dir, i, name);
            let was = s.files[dir];
            let now = t.files[dir];
            &&& t.files[i].nlink == s.files[i].nlink + 1
            &&& i != dir ==> {
                &&& t.files[i].kind == s.files[i].kind
                &&& t.files[i].size == s.files[i].size
                &&& t.files[i].raw == s.files[i].raw
                &&& t.files[i].cut_off == s.files[i].cut_off
                &&& now.nlink == was.nlink
            }
            &&& has_gained(was, now, name, i)
            &&& t.files.len() == s.files.len()
            &&& forall|j: int|
                0 <= j < s.files.len() && j != dir && j != i ==> #[trigger] t.files[j]
                    == s.files[j]
            &&& t.inode_used == s.inode_used
            &&& t.free_blocks == s.free_blocks - (blocks_for(now.size as int) - blocks_for(
                was.size as int,
            ))
            &&& t.inode_area_start == s.inode_area_start
            &&& t.sync_due == s.sync_due
        }),
{
    let a = s.with_link(i);
    let t = s.linked(dir, i, name);
    let f = s.files[dir];
    let d = a.files[dir];
    let g = t.files[dir];
    assert(s.files[i].wf());
    assert(a.files[i] == s.files[i].with_nlink(s.files[i].nlink + 1));
    assert(a.files[i].nlink == s.files[i].nlink + 1);
    assert(a.wf());
    assert(d.size == f.size && d.raw == f.raw && d.kind == f.kind && d.cut_off == f.cut_off);
    assert(d.entries() =~= f.entries());
    fs_laws::lemma_added(a, dir, name, i as u32);
    lemma_until_nul(name);
    assert(g.entries().len() == f.entries().len() + 1);
    assert forall|k: int| 0 <= k < f.size as int / 32 implies #[trigger] g.entries()[k]
        == f.entries()[k] by {}
    assert(g.entries()[f.size as int / 32].inode_id == i);
    assert(g.size == (f.size as int / 32 + 1) * 32);
    assert(has_gained(f, g, name, i));
    assert(t.files[i].nlink == s.files[i].nlink + 1);
    if i != dir {
        assert(t.files[i] == a.files[i]);
    }
}

/// A name can be unlinked exactly if it stands for an inode that has a link, and that is in use if
/// it is its last.
pub proof fn unlink_accepts(s: FsView, i: int)
    ensures
        s.can_unlink(i) <==> {
            &&& i < s.files.len()
            &&& s.files[i].nlink >= 1
            &&& s.files[i].nlink == 1 ==> s.inode_used[i]
        },
{
}

/// Unlinking takes the first entry with the name out of the directory: the last entry takes its
/// place, and all others stay where they are. The inode has one link less; with none left it is not
/// in use any more, and has no bytes and no blocks, all of which are free; else it is otherwise as
/// before. The directory keeps its blocks. All other files are as before. A write-back is then due.
pub proof fn unlink_effect(s: FsView, dir: int, name: Seq<u8>)
    requires
        s.wf(),
        0 <= dir < s.files.len(),
        s.files[dir].has(name),
        s.files[dir].lookup(name)->0 != dir,
        s.can_unlink(s.files[dir].lookup(name)->0 as int),
    ensures
        ({
            let t = s.unlinked(dir, name);
            let was = s.files[dir];
            let now = t.files[dir];
            let last = was.size as int / 32 - 1;
            let n = was.lookup(name)->0 as int;
            &&& exists|k: int|
                {
                    &&& 0 <= k <= last
                    &&& (#[trigger] was.entries()[k]).name == name
                    &&& was.entries()[k].inode_id == n
                    &&& forall|j: int| 0 <= j < k ==> (#[trigger] was.entries()[j]).name != name
                    &&& forall|j: int|
                        0 <= j < last && j != k ==> #[trigger] now.entries()[j]
                            == was.entries()[j]
                    &&& k < last ==> now.entries()[k] == was.entries()[last]
                }
            &&& now.size == last * 32
            &&& now.kind == was.kind
            &&& now.nlink == was.nlink
            &&& blocks_for(now.size as int) + now.cut_off == blocks_for(was.size as int)
                + was.cut_off
            &&& t.files[n].nlink == s.files[n].nlink - 1
            &&& t.files[n].kind == s.files[n].kind
            &&& s.files[n].nlink == 1 ==> {
                &&& !t.inode_used[n]
                &&& t.files[n].size == 0
                &&& t.files[n].raw.len() == 0
                &&& t.files[n].cut_off == 0
                &&& t.free_blocks == s.free_blocks + blocks_for(s.files[n].size as int)
                    + s.files[n].cut_off
            }
            &&& s.files[n].nlink != 1 ==> {
                &&& t.inode_used[n] == s.inode_used[n]
                &&& t.files[n].size == s.files[n].size
                &&& t.files[n].raw == s.files[n].raw
                &&& t.files[n].cut_off == s.files[n].cut_off
                &&& t.free_blocks == s.free_blocks
            }
            &&& t.files.len() == s.files.len()
            &&& forall|j: int|
                0 <= j < s.files.len() && j != dir && j != n ==> #[trigger] t.files[j]
                    == s.files[j]
            &&& t.inode_used.len() == s.inode_used.len()
            &&& forall|j: int|
                0 <= j < s.files.len() && j != n ==> #[trigger] t.inode_used[j] == s.inode_used[j]
            &&& t.inode_area_start == s.inode_area_start
            &&& t.sync_due
        }),
{
    fs_laws::lemma_without_name(s, dir, name);
    let f = s.files[dir];
    let k = f.position(name);
    model::lemma_position(f, name);
    let g = s.unlinked(dir, name).files[dir];
    assert(f.entries()[k].name == name);
    assert forall|j: int| 0 <= j < f.size as int / 32 - 1 && j != k implies #[trigger] g.entries()[j]
        == f.entries()[j] by {}
}

/// An inode stands in the inode area at the place of its number, four to a block and 128 bytes each,
/// and a handle for that number reaches that inode and no other.
pub proof fn handle_is(s: FsView, inode: &Inode, inode_id: int)
    requires
        0 <= inode_id < s.files.len(),
        inode.stands_for(s, inode_id),
    ensures
        inode.id() == inode_id,
        inode.block() == s.inode_area_start + inode_id / 4,
        inode.offset() == (inode_id % 4) * 128,
        inode.valid(s),
        inode.index(s) == inode_id,
        inode.file(s) == s.files[inode_id],
        inode.is_directory(s) <==> s.files[inode_id].kind == DiskInodeType::Directory,
{
    efs::inode_pos_roundtrip(s, inode_id);
}

/// Where an inode stands on disk: in a block of the inode area, at the start of one of its four
/// parts, with a number that there is.
pub proof fn position_is(s: FsView, inode: &Inode)
    ensures
        inode.valid(s) <==> {
            let index = (inode.block() - s.inode_area_start) * 4 + inode.offset() / 128;
            &&& inode.block() >= s.inode_area_start
            &&& 0 <= inode.offset() < 512
            &&& inode.offset() % 128 == 0
            &&& index < s.files.len()
        },
        inode.index(s) == (inode.block() - s.inode_area_start) * 4 + inode.offset() / 128,
{
}

/// When each operation can be asked of a directory: exactly if it is one, and the operation can be
/// carried out or has an answer without being carried out.
pub proof fn directory_accepts(s: FsView, dir: &Inode, name: Seq<char>, new_name: Seq<char>)
    ensures
        ({
            let f = s.files[dir.index(s)];
            let is_dir = dir.valid(s) && f.kind == DiskInodeType::Directory;
            let bytes = encode_utf8(name);
            &&& dir.is_directory(s) <==> is_dir
            &&& dir.may_create(s, name) <==> is_dir && (f.lookup(bytes) is Some || s.can_create(
                dir.index(s),
                bytes,
            ))
            &&& dir.may_link(s, name, new_name) <==> name == new_name || is_dir && (f.lookup(
                bytes,
            ) is None || s.can_link(
                dir.index(s),
                f.lookup(bytes)->0 as int,
                encode_utf8(new_name),
            ))
            &&& dir.may_unlink(s, name) <==> is_dir && (f.lookup(bytes) is None || s.can_unlink(
                f.lookup(bytes)->0 as int,
            ))
            &&& dir.may_ls(s) <==> dir.valid(s) && forall|k: int|
                0 <= k < f.size as int / 32 ==> valid_utf8((#[trigger] f.entries()[k]).name)
        }),
{
    lookup_is(s.files[dir.index(s)], encode_utf8(name));
}

/// A shared lookup is refused exactly on what is no directory, gives nothing exactly if no entry
/// has the name, and else gives the inode of the first entry that has it, of the same shared file
/// system.
pub proof fn shared_find_effect(
    s: FsView,
    dir: &SharedInode,
    name: Seq<char>,
    found: Result<Option<SharedInode>, Refused>,
)
    requires
        shared::shared_find_outcome(s, dir, name, found),
    ensures
        ({
            let f = s.files[dir.inode().index(s)];
            let bytes = encode_utf8(name);
            &&& found is Err <==> !(dir.inode().valid(s) && f.kind == DiskInodeType::Directory)
            &&& found is Ok ==> (found->Ok_0 is None <==> forall|k: int|
                0 <= k < f.size as int / 32 ==> (#[trigger] f.entries()[k]).name != bytes)
            &&& found matches Ok(Some(inode)) ==> {
                &&& inode.volume_lock() == dir.volume_lock()
                &&& exists|k: int|
                    {
                        &&& 0 <= k < f.size as int / 32
                        &&& (#[trigger] f.entries()[k]).name == bytes
                        &&& forall|j: int| 0 <= j < k ==> (#[trigger] f.entries()[j]).name != bytes
                        &&& inode.inode().stands_for(s, f.entries()[k].inode_id as int)
                    }
            }
        }),
{
    let f = s.files[dir.inode().index(s)];
    let bytes = encode_utf8(name);
    lookup_is(f, bytes);
    model::lemma_position(f, bytes);
    if f.has(bytes) {
        assert(f.entries()[f.position(bytes)].name == bytes);
    }
}

/// A shared creation is refused exactly if it cannot be carried out, gives nothing and changes
/// nothing if an entry has the name, and else gives the first inode that was not in use, of the
/// same shared file system, and creates the file.
pub proof fn shared_create_effect(
    s: FsView,
    dir: &SharedInode,
    name: Seq<char>,
    new: Result<Option<SharedInode>, Refused>,
)
    requires
        shared::shared_create_outcome(s, dir, name, new),
    ensures
        ({
            let d = dir.inode().index(s);
            let bytes = encode_utf8(name);
            let taken = exists|k: int|
                0 <= k < s.files[d].size as int / 32 && (
                #[trigger] s.files[d].entries()[k]).name == bytes;
            let is_dir = dir.inode().valid(s) && s.files[d].kind == DiskInodeType::Directory;
            let t = shared::after_create(s, dir.inode(), name);
            &&& new is Err <==> !(is_dir && (taken || s.can_create(d, bytes)))
            &&& new is Ok ==> (new->Ok_0 is None <==> taken)
            &&& new matches Ok(Some(inode)) ==> {
                &&& inode.volume_lock() == dir.volume_lock()
                &&& inode.inode().stands_for(s, s.next_inode())
                &&& t == s.created(d, bytes)
            }
            &&& (new is Err || new->Ok_0 is None) ==> t == s
        }),
{
    lookup_is(s.files[dir.inode().index(s)], encode_utf8(name));
}

/// A shared link is refused exactly if it cannot be carried out, gives -1 and changes nothing if the
/// names are equal or no entry has the old one, and else gives 0 and links the inode of the first
/// entry that has it.
pub proof fn shared_link_effect(
    s: FsView,
    dir: &Inode,
    old_name: Seq<char>,
    new_name: Seq<char>,
    code: Result<isize, Refused>,
)
    requires
        shared::link_outcome(s, dir, old_name, new_name, code),
    ensures
        ({
            let d = dir.index(s);
            let f = s.files[d];
            let bytes = encode_utf8(old_name);
            let there = exists|k: int|
                0 <= k < f.size as int / 32 && (#[trigger] f.entries()[k]).name == bytes;
            let is_dir = dir.valid(s) && f.kind == DiskInodeType::Directory;
            let t = shared::after_link(s, dir, old_name, new_name);
            let n = f.lookup(bytes)->0 as int;
            &&& old_name == new_name ==> code is Ok && code->Ok_0 == -1 && t == s
            &&& old_name != new_name ==> {
                &&& code is Err <==> !(is_dir && (!there || s.can_link(
                    d,
                    n,
                    encode_utf8(new_name),
                )))
                &&& code is Err ==> t == s
                &&& code is Ok && !there ==> code->Ok_0 == -1 && t == s
                &&& code is Ok && there ==> code->Ok_0 == 0 && t == s.linked(
                    d,
                    n,
                    encode_utf8(new_name),
                )
            }
        }),
{
    lookup_is(s.files[dir.index(s)], encode_utf8(old_name));
}

/// A shared unlink is refused exactly if it cannot be carried out, gives -1 and changes nothing if
/// no entry has the name, and else gives 0 and takes the name out.
pub proof fn shared_unlink_effect(
    s: FsView,
    dir: &Inode,
    name: Seq<char>,
    code: Result<isize, Refused>,
)
    requires
        shared::unlink_outcome(s, dir, name, code),
    ensures
        ({
            let d = dir.index(s);
            let f = s.files[d];
            let bytes = encode_utf8(name);
            let there = exists|k: int|
                0 <= k < f.size as int / 32 && (#[trigger] f.entries()[k]).name == bytes;
            let is_dir = dir.valid(s) && f.kind == DiskInodeType::Directory;
            let t = shared::after_unlink(s, dir, name);
            &&& code is Err <==> !(is_dir && (!there || s.can_unlink(f.lookup(bytes)->0 as int)))
            &&& code is Err ==> t == s
            &&& code is Ok && !there ==> code->Ok_0 == -1 && t == s
            &&& code is Ok && there ==> code->Ok_0 == 0 && t == s.unlinked(d, bytes)
        }),
{
    lookup_is(s.files[dir.index(s)], encode_utf8(name));
}

/// A shared listing is refused exactly if a name is no text or there is no such inode, and else
/// gives the name of every entry, in their order.
pub proof fn shared_ls_effect(s: FsView, dir: &Inode, names: Result<Vec<String>, Refused>)
    requires
        shared::ls_outcome(s, dir, names),
    ensures
        ({
            let f = s.files[dir.index(s)];
            &&& names is Err <==> !(dir.valid(s) && forall|k: int|
                0 <= k < f.size as int / 32 ==> valid_utf8((#[trigger] f.entries()[k]).name))
            &&& names matches Ok(v) ==> v@.len() == f.size as int / 32 && forall|k: int|
                0 <= k < v@.len() ==> encode_utf8((#[trigger] v@[k])@) == f.entries()[k].name
        }),
{
    broadcast use decode_utf8_encode_utf8;

    if let Ok(v) = names {
        let f = s.files[dir.index(s)];
        assert forall|k: int| 0 <= k < v@.len() implies encode_utf8((#[trigger] v@[k])@)
            == f.entries()[k].name by {
            assert(valid_utf8(f.entries()[k].name));
        }
    }
}

/// A shared read is refused exactly if there is no such inode, and else gets the bytes of the file
/// from the offset on.
pub proof fn shared_read_effect(
    s: FsView,
    inode: &Inode,
    offset: int,
    buf: Seq<u8>,
    filled: Seq<u8>,
    n: Result<usize, Refused>,
)
    requires
        s.wf(),
        0 <= offset,
        shared::read_outcome(s, inode, offset, buf, filled, n),
    ensures
        ({
            let f = s.files[inode.index(s)];
            &&& n is Err <==> !inode.valid(s)
            &&& n is Err ==> filled == buf
            &&& n matches Ok(n) ==> {
                &&& n <= buf.len()
                &&& offset >= f.size ==> n == 0
                &&& offset < f.size ==> n <= f.size - offset && (n == buf.len() || n == f.size
                    - offset)
                &&& filled.len() == buf.len()
                &&& forall|k: int| 0 <= k < n ==> #[trigger] filled[k] == f.raw[offset + k]
                &&& forall|k: int| n <= k < buf.len() ==> #[trigger] filled[k] == buf[k]
            }
        }),
{
    if inode.valid(s) {
        assert(s.files[inode.index(s)].wf());
        read_effect(s.files[inode.index(s)], offset, buf);
    }
}

/// A shared write is refused, and changes nothing, exactly if there is no such inode or no room, and
/// else writes all bytes. A shared clear is refused exactly if there is no such inode. The kind and
/// the link count are those of the inode.
pub proof fn shared_file_effects(
    s: FsView,
    inode: &Inode,
    offset: int,
    bytes: Seq<u8>,
    n: Result<usize, Refused>,
    kind: Result<DiskInodeType, Refused>,
    nlink: Result<usize, Refused>,
)
    requires
        s.wf(),
        0 <= offset,
        shared::write_outcome(s, inode, offset, bytes.len() as int, n),
        shared::kind_outcome(s, inode, kind),
        shared::nlink_outcome(s, inode, nlink),
    ensures
        ({
            let i = inode.index(s);
            let f = s.files[i];
            let w = shared::after_write(s, inode, offset, bytes);
            let c = shared::after_clear(s, inode);
            let room = offset + bytes.len() <= u32::MAX && blocks_for(offset + bytes.len())
                - blocks_for(f.size as int) <= s.free_blocks;
            &&& n is Err <==> !(inode.valid(s) && room)
            &&& n is Err ==> w == s
            &&& n is Ok ==> n->Ok_0 == bytes.len() && w == s.written(i, offset, bytes)
            &&& inode.valid(s) ==> c == s.cleared(i).synced()
            &&& !inode.valid(s) ==> c == s
            &&& kind is Err <==> !inode.valid(s)
            &&& kind is Ok ==> kind->Ok_0 == f.kind
            &&& nlink is Err <==> !inode.valid(s)
            &&& nlink is Ok ==> nlink->Ok_0 == f.nlink
        }),
{
}

/// An operation finds a file system that is in order and that the lock was made with or that a
/// holder left; what a holder leaves may be found through every handle of the same lock.
pub proof fn turn_effect(inode: &SharedInode, other: &SharedInode, s: FsView, t: FsView)
    requires
        other.volume_lock() == inode.volume_lock(),
    ensures
        inode.may_find(s) <==> s.wf() && (s == shared::made_with(inode.volume_lock()) || exists|
            r: FsView,
        |
            shared::turn(inode.volume_lock(), r, s)),
        inode.took_turn(s, t) <==> shared::turn(inode.volume_lock(), s, t),
        inode.took_turn(s, t) && t.wf() ==> other.may_find(t),
{
}

/// What comes of a lookup and of a creation on a guard is what comes of them on the shared file
/// system, but for the lock.
pub proof fn held_effects(
    s: FsView,
    dir: &Inode,
    name: Seq<char>,
    found: Result<Option<Arc<Inode>>, Refused>,
    new: Result<Option<Arc<Inode>>, Refused>,
)
    requires
        shared::find_outcome(s, dir, name, found),
        shared::create_outcome(s, dir, name, new),
    ensures
        ({
            let f = s.files[dir.index(s)];
            let bytes = encode_utf8(name);
            let is_dir = dir.valid(s) && f.kind == DiskInodeType::Directory;
            let there = exists|k: int|
                0 <= k < f.size as int / 32 && (#[trigger] f.entries()[k]).name == bytes;
            &&& found is Err <==> !is_dir
            &&& found is Ok ==> (found->Ok_0 is Some <==> there)
            &&& found matches Ok(Some(inode)) ==> inode.stands_for(
                s,
                f.lookup(bytes)->0 as int,
            )
            &&& new is Err <==> !(is_dir && (there || s.can_create(dir.index(s), bytes)))
            &&& new is Ok ==> (new->Ok_0 is None <==> there)
            &&& new matches Ok(Some(inode)) ==> inode.stands_for(s, s.next_inode())
        }),
{
    lookup_is(s.files[dir.index(s)], encode_utf8(name));
}

} // verus!
