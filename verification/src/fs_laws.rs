//! What holds of the operations on files and names taken together.
use crate::bitmap;
use crate::dirent;
use crate::dirent::{DirEntryView, DIRENT_SZ, NAME_LENGTH_LIMIT};
use crate::efs;
use crate::efs::FsView;
use crate::model;
use crate::model::{DiskInodeType, FileView, BLOCK_SZ};
use crate::seqs;
use crate::vfs::Inode;
use vstd::prelude::*;

verus! {

/// How many entries of directory `dir` stand for inode `i`.
pub open spec fn link_count(s: FsView, dir: int, i: int) -> nat {
    seqs::count_where(s.files[dir].entries(), model::has_inode(i))
}

/// The names of directory `dir` and the inodes of the file system agree: the directory is in use
/// and names inodes in use, other than itself; the link count of every inode is the number of
/// its names; and every inode in use but the directory has a name.
pub open spec fn names_wf(s: FsView, dir: int) -> bool {
    &&& s.wf()
    &&& 0 <= dir < s.files.len()
    &&& s.files[dir].kind == DiskInodeType::Directory
    &&& s.inode_used[dir]
    &&& forall|k: int|
        0 <= k < s.files[dir].entry_count() ==> {
            &&& (#[trigger] s.files[dir].entries()[k]).inode_id < s.files.len()
            &&& s.files[dir].entries()[k].inode_id != dir
            &&& s.inode_used[s.files[dir].entries()[k].inode_id as int]
        }
    &&& forall|i: int|
        0 <= i < s.files.len() ==> (#[trigger] s.files[i]).nlink == link_count(s, dir, i)
    &&& forall|i: int|
        0 <= i < s.files.len() && i != dir && s.inode_used[i] ==> (#[trigger] s.files[i]).nlink > 0
}

/// No name of directory `dir` occurs twice.
pub open spec fn names_unique(s: FsView, dir: int) -> bool {
    forall|k: int, l: int|
        0 <= k < l < s.files[dir].entry_count() ==> (#[trigger] s.files[dir].entries()[k]).name
            != (#[trigger] s.files[dir].entries()[l]).name
}

/// An inode that no entry stands for has no link.
proof fn lemma_no_link(s: FsView, dir: int, i: int)
    requires
        forall|k: int|
            0 <= k < s.files[dir].entry_count() ==> (#[trigger] s.files[dir].entries()[k]).inode_id
                != i,
        s.files[dir].entry_count() >= 0,
    ensures
        link_count(s, dir, i) == 0,
{
    let entries = s.files[dir].entries();
    seqs::lemma_count_bounds(entries, model::has_inode(i));
    seqs::lemma_first_index(entries, model::has_inode(i));
    let f = seqs::first_index(entries, model::has_inode(i));
    if f < entries.len() {
        assert(model::has_inode(i)(entries[f]));
    }
}

/// An inode that an entry stands for has a link.
proof fn lemma_has_link(s: FsView, dir: int, k: int)
    requires
        0 <= k < s.files[dir].entry_count(),
    ensures
        link_count(s, dir, s.files[dir].entries()[k].inode_id as int) > 0,
{
    let entries = s.files[dir].entries();
    let p = model::has_inode(entries[k].inode_id as int);
    seqs::lemma_count_bounds(entries, p);
    seqs::lemma_first_index(entries, p);
    assert(p(entries[k]));
}

/// In a new file system, whose inode 0 is an empty directory and where nothing else is in use,
/// the names of inode 0 agree with the inodes.
pub proof fn new_names_wf(s: FsView)
    requires
        s.wf(),
        s.files.len() > 0,
        s.files[0] == FileView::fresh(DiskInodeType::Directory, 0),
        s.inode_used[0],
        forall|i: int|
            0 < i < s.files.len() ==> (#[trigger] s.files[i]).nlink == 0 && !s.inode_used[i],
    ensures
        names_wf(s, 0),
        names_unique(s, 0),
{
    assert forall|i: int| 0 <= i < s.files.len() implies (#[trigger] s.files[i]).nlink
        == link_count(s, 0, i) by {
        lemma_no_link(s, 0, i);
    }
}

/// What the entries of a directory are after one more was added.
pub proof fn lemma_added(s: FsView, dir: int, name: Seq<u8>, inode_id: u32)
    requires
        s.wf(),
        0 <= dir < s.files.len(),
        s.can_add_entry(dir),
        name.len() <= NAME_LENGTH_LIMIT,
    ensures
        s.with_entry(dir, name, inode_id).wf(),
        s.with_entry(dir, name, inode_id).files[dir].entries() == s.files[dir].entries().push(
            DirEntryView { name: dirent::until_nul(name), inode_id },
        ),
        s.with_entry(dir, name, inode_id).files[dir].kind == s.files[dir].kind,
        s.with_entry(dir, name, inode_id).files[dir].nlink == s.files[dir].nlink,
        s.with_entry(dir, name, inode_id).inode_used == s.inode_used,
        forall|i: int|
            0 <= i < s.files.len() && i != dir ==> #[trigger] s.with_entry(
                dir,
                name,
                inode_id,
            ).files[i] == s.files[i],
{
    model::lemma_with_entry(s.files[dir], name, inode_id);
}

/// The inode that a new file takes is one that is not in use.
pub proof fn lemma_new_inode(s: FsView)
    requires
        s.wf(),
        s.next_inode() < s.files.len(),
    ensures
        0 <= s.next_inode() < s.files.len(),
        !s.inode_used[s.next_inode()],
        s.with_new_file().wf(),
{
    seqs::lemma_first_index(s.inode_used, bitmap::is_clear());
    assert(!s.inode_used[s.next_inode()]);
    assert(FileView::fresh(DiskInodeType::File, 1).wf());
}

/// Creating a file keeps the names of the directory and the inodes in agreement. The inode was
/// not in use.
pub proof fn created_names_wf(s: FsView, dir: int, name: Seq<u8>)
    requires
        names_wf(s, dir),
        s.can_create(dir, name),
    ensures
        names_wf(s.created(dir, name), dir),
        0 <= s.next_inode() < s.files.len(),
        !s.inode_used[s.next_inode()],
        s.next_inode() != dir,
{
    let n = s.next_inode();
    let a = s.with_new_file();
    let t = s.created(dir, name);
    lemma_new_inode(s);
    lemma_added(a, dir, name, n as u32);
    let entry = DirEntryView { name: dirent::until_nul(name), inode_id: n as u32 };
    let entries = s.files[dir].entries();
    assert(t.files[dir].entries() == entries.push(entry));
    assert forall|k: int| 0 <= k < t.files[dir].entry_count() implies {
        &&& (#[trigger] t.files[dir].entries()[k]).inode_id < t.files.len()
        &&& t.files[dir].entries()[k].inode_id != dir
        &&& t.inode_used[t.files[dir].entries()[k].inode_id as int]
    } by {
        if k < entries.len() {
            assert(t.files[dir].entries()[k] == entries[k]);
        } else {
            assert(t.files[dir].entries()[k] == entry);
        }
    }
    assert forall|i: int| 0 <= i < t.files.len() implies (#[trigger] t.files[i]).nlink
        == link_count(t, dir, i) by {
        seqs::lemma_count_push(entries, model::has_inode(i), entry);
        assert(s.files[i].nlink == link_count(s, dir, i));
        if i == n {
            assert forall|k: int| 0 <= k < s.files[dir].entry_count() implies (
            #[trigger] s.files[dir].entries()[k]).inode_id != n by {
                assert(s.inode_used[s.files[dir].entries()[k].inode_id as int]);
            }
            lemma_no_link(s, dir, n);
        }
    }
    assert forall|i: int|
        0 <= i < t.files.len() && i != dir && t.inode_used[i] implies (
    #[trigger] t.files[i]).nlink > 0 by {
        if i != n {
            assert(s.files[i].nlink > 0);
        }
    }
}

/// In a directory with one more entry, every name that was found is found as before; a name that
/// was not found is found only if it is the new one.
proof fn lemma_lookup_added(f: FileView, g: FileView, entry: DirEntryView, name: Seq<u8>)
    requires
        g.entries() == f.entries().push(entry),
    ensures
        g.lookup(name) == if f.has(name) {
            f.lookup(name)
        } else if name == entry.name {
            Some(entry.inode_id)
        } else {
            None
        },
{
    let p = model::has_name(name);
    let es = f.entries();
    model::lemma_position(f, name);
    let k = f.position(name);
    assert(g.entries().len() == es.len() + 1);
    if f.has(name) {
        assert forall|j: int| 0 <= j < k implies !p(#[trigger] g.entries()[j]) by {
            assert(g.entries()[j] == es[j]);
        }
        assert(g.entries()[k] == es[k]);
        seqs::lemma_first_index_is(g.entries(), p, k);
    } else {
        assert forall|j: int| 0 <= j < es.len() implies !p(#[trigger] g.entries()[j]) by {
            assert(g.entries()[j] == es[j]);
        }
        assert(g.entries()[es.len() as int] == entry);
        if name == entry.name {
            seqs::lemma_first_index_is(g.entries(), p, es.len() as int);
        } else {
            seqs::lemma_first_index_is(g.entries(), p, es.len() as int + 1);
        }
    }
}

/// A file that was created under a name is the last in the directory and is found under its name,
/// and is empty with one link. All other names and all other files are as before.
pub proof fn create_then_find(s: FsView, dir: int, name: Seq<u8>)
    requires
        s.wf(),
        0 <= dir < s.files.len(),
        s.next_inode() != dir,
        !s.files[dir].has(name),
        s.can_create(dir, name),
        !name.contains(0u8),
    ensures
        s.created(dir, name).files[dir].entries() == s.files[dir].entries().push(
            DirEntryView { name, inode_id: s.next_inode() as u32 },
        ),
        s.created(dir, name).files[dir].lookup(name) == Some(s.next_inode() as u32),
        forall|other: Seq<u8>|
            other != name ==> #[trigger] s.created(dir, name).files[dir].lookup(other)
                == s.files[dir].lookup(other),
        s.created(dir, name).files[s.next_inode()] == FileView::fresh(DiskInodeType::File, 1),
        s.created(dir, name).inode_used == s.inode_used.update(s.next_inode(), true),
        forall|i: int|
            0 <= i < s.files.len() && i != dir && i != s.next_inode() ==> #[trigger] s.created(
                dir,
                name,
            ).files[i] == s.files[i],
{
    let n = s.next_inode();
    let a = s.with_new_file();
    let t = s.created(dir, name);
    lemma_new_inode(s);
    lemma_added(a, dir, name, n as u32);
    dirent::entry_roundtrip(name, n as u32);
    let entry = DirEntryView { name, inode_id: n as u32 };
    lemma_lookup_added(s.files[dir], t.files[dir], entry, name);
    assert forall|other: Seq<u8>| other != name implies #[trigger] t.files[dir].lookup(other)
        == s.files[dir].lookup(other) by {
        lemma_lookup_added(s.files[dir], t.files[dir], entry, other);
    }
}

/// Creating a file under a name that the directory does not have keeps the names unique.
pub proof fn created_names_unique(s: FsView, dir: int, name: Seq<u8>)
    requires
        s.wf(),
        0 <= dir < s.files.len(),
        names_unique(s, dir),
        !s.files[dir].has(name),
        s.can_create(dir, name),
        !name.contains(0u8),
    ensures
        names_unique(s.created(dir, name), dir),
{
    let n = s.next_inode();
    let a = s.with_new_file();
    lemma_new_inode(s);
    lemma_added(a, dir, name, n as u32);
    dirent::entry_roundtrip(name, n as u32);
    model::lemma_position(a.files[dir], name);
    lemma_unique_added(
        a.files[dir],
        s.created(dir, name).files[dir],
        DirEntryView { name, inode_id: n as u32 },
    );
}

/// One more entry whose name is new keeps the names unique.
proof fn lemma_unique_added(f: FileView, g: FileView, entry: DirEntryView)
    requires
        g.entries() == f.entries().push(entry),
        !f.has(entry.name),
        forall|k: int, l: int|
            0 <= k < l < f.entry_count() ==> (#[trigger] f.entries()[k]).name != (
            #[trigger] f.entries()[l]).name,
    ensures
        forall|k: int, l: int|
            0 <= k < l < g.entry_count() ==> (#[trigger] g.entries()[k]).name != (
            #[trigger] g.entries()[l]).name,
{
    model::lemma_position(f, entry.name);
    assert(g.entries().len() == f.entries().len() + 1);
    assert forall|k: int, l: int| 0 <= k < l < g.entry_count() implies (
    #[trigger] g.entries()[k]).name != (#[trigger] g.entries()[l]).name by {
        assert(g.entries()[k] == f.entries()[k]);
        if l < f.entries().len() {
            assert(g.entries()[l] == f.entries()[l]);
        } else {
            assert(g.entries()[l] == entry);
            assert(f.entries()[k].name != entry.name);
        }
    }
}

/// Linking keeps the names of the directory and the inodes in agreement.
pub proof fn linked_names_wf(s: FsView, dir: int, old_name: Seq<u8>, new_name: Seq<u8>)
    requires
        names_wf(s, dir),
        s.files[dir].has(old_name),
        s.can_link(dir, s.files[dir].lookup(old_name)->0 as int, new_name),
    ensures
        names_wf(
            s.linked(dir, s.files[dir].lookup(old_name)->0 as int, new_name),
            dir,
        ),
{
    let n = s.files[dir].lookup(old_name)->0 as int;
    model::lemma_position(s.files[dir], old_name);
    let at = s.files[dir].position(old_name);
    assert(s.files[dir].entries()[at].inode_id == n);
    let a = s.with_link(n);
    let t = s.linked(dir, n, new_name);
    assert(a.files[dir] == s.files[dir]);
    assert(a.wf()) by {
        assert(s.files[n].wf());
    }
    lemma_added(a, dir, new_name, n as u32);
    let entry = DirEntryView { name: dirent::until_nul(new_name), inode_id: n as u32 };
    let entries = s.files[dir].entries();
    assert(t.files[dir].entries() == entries.push(entry));
    assert forall|k: int| 0 <= k < t.files[dir].entry_count() implies {
        &&& (#[trigger] t.files[dir].entries()[k]).inode_id < t.files.len()
        &&& t.files[dir].entries()[k].inode_id != dir
        &&& t.inode_used[t.files[dir].entries()[k].inode_id as int]
    } by {
        if k < entries.len() {
            assert(t.files[dir].entries()[k] == entries[k]);
        } else {
            assert(t.files[dir].entries()[k] == entry);
        }
    }
    assert forall|i: int| 0 <= i < t.files.len() implies (#[trigger] t.files[i]).nlink
        == link_count(t, dir, i) by {
        seqs::lemma_count_push(entries, model::has_inode(i), entry);
        assert(s.files[i].nlink == link_count(s, dir, i));
    }
    assert forall|i: int|
        0 <= i < t.files.len() && i != dir && t.inode_used[i] implies (
    #[trigger] t.files[i]).nlink > 0 by {
        assert(s.files[i].nlink > 0);
    }
}

/// A file that was linked under a new name is the last in the directory under that name, is found
/// under both names, has one link more and its contents unchanged. All other names and all other
/// files are as before.
pub proof fn link_then_find(s: FsView, dir: int, old_name: Seq<u8>, new_name: Seq<u8>)
    requires
        s.wf(),
        0 <= dir < s.files.len(),
        s.files[dir].has(old_name),
        s.files[dir].lookup(old_name)->0 != dir,
        !s.files[dir].has(new_name),
        s.can_link(dir, s.files[dir].lookup(old_name)->0 as int, new_name),
        !new_name.contains(0u8),
    ensures
        ({
            let n = s.files[dir].lookup(old_name)->0 as int;
            let t = s.linked(dir, n, new_name);
            &&& t.files[dir].entries() == s.files[dir].entries().push(
                DirEntryView { name: new_name, inode_id: n as u32 },
            )
            &&& t.files[dir].lookup(new_name) == Some(n as u32)
            &&& t.files[dir].lookup(old_name) == Some(n as u32)
            &&& forall|other: Seq<u8>|
                other != new_name ==> #[trigger] t.files[dir].lookup(other)
                    == s.files[dir].lookup(other)
            &&& t.files[n] == s.files[n].with_nlink(s.files[n].nlink + 1)
            &&& t.files[n].content() == s.files[n].content()
            &&& forall|i: int|
                0 <= i < s.files.len() && i != dir && i != n ==> #[trigger] t.files[i]
                    == s.files[i]
            &&& t.inode_used == s.inode_used
        }),
{
    let n = s.files[dir].lookup(old_name)->0 as int;
    let a = s.with_link(n);
    let t = s.linked(dir, n, new_name);
    assert(a.wf()) by {
        assert(s.files[n].wf());
    }
    lemma_added(a, dir, new_name, n as u32);
    dirent::entry_roundtrip(new_name, n as u32);
    let entry = DirEntryView { name: new_name, inode_id: n as u32 };
    lemma_lookup_added(s.files[dir], t.files[dir], entry, new_name);
    assert forall|other: Seq<u8>| other != new_name implies #[trigger] t.files[dir].lookup(other)
        == s.files[dir].lookup(other) by {
        lemma_lookup_added(s.files[dir], t.files[dir], entry, other);
    }
    assert(old_name != new_name);
    assert(t.files[n].content() =~= s.files[n].content());
}

/// Linking under a name that the directory has already leaves what every name stands for as it
/// is: the new entry is behind the one that is found.
pub proof fn link_to_taken_name(s: FsView, dir: int, old_name: Seq<u8>, new_name: Seq<u8>)
    requires
        s.wf(),
        0 <= dir < s.files.len(),
        s.files[dir].has(old_name),
        s.files[dir].has(new_name),
        s.can_link(dir, s.files[dir].lookup(old_name)->0 as int, new_name),
        !new_name.contains(0u8),
    ensures
        ({
            let t = s.linked(dir, s.files[dir].lookup(old_name)->0 as int, new_name);
            forall|other: Seq<u8>| #[trigger]
                t.files[dir].lookup(other) == s.files[dir].lookup(other)
        }),
{
    let n = s.files[dir].lookup(old_name)->0 as int;
    let a = s.with_link(n);
    assert(a.wf()) by {
        assert(s.files[n].wf());
    }
    assert(a.files[dir].entries() =~= s.files[dir].entries());
    lemma_added(a, dir, new_name, n as u32);
    dirent::entry_roundtrip(new_name, n as u32);
    let t = s.linked(dir, n, new_name);
    let entry = DirEntryView { name: new_name, inode_id: n as u32 };
    assert forall|other: Seq<u8>| #[trigger] t.files[dir].lookup(other) == s.files[dir].lookup(
        other,
    ) by {
        lemma_lookup_added(s.files[dir], t.files[dir], entry, other);
    }
}

/// Linking under a name that the directory does not have keeps the names unique.
pub proof fn linked_names_unique(s: FsView, dir: int, old_name: Seq<u8>, new_name: Seq<u8>)
    requires
        s.wf(),
        0 <= dir < s.files.len(),
        names_unique(s, dir),
        s.files[dir].has(old_name),
        !s.files[dir].has(new_name),
        s.can_link(dir, s.files[dir].lookup(old_name)->0 as int, new_name),
        !new_name.contains(0u8),
    ensures
        names_unique(
            s.linked(dir, s.files[dir].lookup(old_name)->0 as int, new_name),
            dir,
        ),
{
    let n = s.files[dir].lookup(old_name)->0 as int;
    let a = s.with_link(n);
    assert(a.wf()) by {
        assert(s.files[n].wf());
    }
    assert(a.files[dir].entries() =~= s.files[dir].entries());
    lemma_added(a, dir, new_name, n as u32);
    dirent::entry_roundtrip(new_name, n as u32);
    lemma_unique_added(
        s.files[dir],
        s.linked(dir, n, new_name).files[dir],
        DirEntryView { name: new_name, inode_id: n as u32 },
    );
}

/// Where the names of a directory and the inodes agree, a name stands for an inode in use that has
/// a link and is not the directory.
proof fn lemma_named(s: FsView, dir: int, name: Seq<u8>)
    requires
        names_wf(s, dir),
        s.files[dir].has(name),
    ensures
        ({
            let n = s.files[dir].lookup(name)->0 as int;
            &&& n != dir
            &&& n < s.files.len()
            &&& s.inode_used[n]
            &&& s.files[n].nlink > 0
        }),
{
    let k = s.files[dir].position(name);
    model::lemma_position(s.files[dir], name);
    let n = s.files[dir].entries()[k].inode_id as int;
    lemma_has_link(s, dir, k);
    assert(s.files[n].nlink == link_count(s, dir, n));
}

/// What is left of a file system when a name is taken out of a directory, before a file without
/// a name is deleted.
pub proof fn lemma_without_name(s: FsView, dir: int, name: Seq<u8>)
    requires
        s.wf(),
        0 <= dir < s.files.len(),
        s.files[dir].has(name),
        s.files[dir].lookup(name)->0 < s.files.len(),
        s.files[dir].lookup(name)->0 != dir,
        s.files[s.files[dir].lookup(name)->0 as int].nlink > 0,
    ensures
        ({
            let f = s.files[dir];
            let n = f.lookup(name)->0 as int;
            let k = f.position(name);
            let t = s.without_name(dir, name);
            &&& 0 <= k < f.entry_count()
            &&& f.entries()[k].inode_id == n
            &&& f.entries()[k].name == name
            &&& t.wf()
            &&& t.files[dir].kind == f.kind
            &&& t.files[dir].nlink == f.nlink
            &&& t.files[dir].entries() == f.entries().update(k, f.entries().last()).drop_last()
            &&& t.files[n] == s.files[n].with_nlink(s.files[n].nlink - 1)
            &&& t.inode_used == s.inode_used
            &&& t.free_blocks == s.free_blocks
            &&& forall|i: int|
                0 <= i < s.files.len() && i != dir && i != n ==> #[trigger] t.files[i]
                    == s.files[i]
        }),
{
    let f = s.files[dir];
    let k = f.position(name);
    model::lemma_position(f, name);
    let n = f.entries()[k].inode_id as int;
    model::lemma_without_entry(f, k);
    assert(s.files[n].wf());
    let t = s.without_name(dir, name);
    assert forall|i: int| 0 <= i < t.files.len() implies (#[trigger] t.files[i]).wf() by {
        assert(s.files[i].wf());
    }
}

/// How the number of entries that stand for an inode changes when an entry is removed and the
/// last one takes its place.
proof fn lemma_count_removed(entries: Seq<DirEntryView>, k: int, i: int)
    requires
        0 <= k < entries.len(),
    ensures
        seqs::count_where(
            entries.update(k, entries.last()).drop_last(),
            model::has_inode(i),
        ) + (if entries[k].inode_id == i {
            1nat
        } else {
            0nat
        }) == seqs::count_where(entries, model::has_inode(i)),
{
    let moved = entries.update(k, entries.last());
    seqs::lemma_count_update(entries, model::has_inode(i), k, entries.last());
    seqs::lemma_count_push(moved.drop_last(), model::has_inode(i), moved.last());
    assert(moved.drop_last().push(moved.last()) =~= moved);
}

/// Taking a name out of a directory keeps the names of the directory and the inodes in
/// agreement, and is always possible where they agree.
pub proof fn unlinked_names_wf(s: FsView, dir: int, name: Seq<u8>)
    requires
        names_wf(s, dir),
        s.files[dir].has(name),
    ensures
        s.can_unlink(s.files[dir].lookup(name)->0 as int),
        names_wf(s.unlinked(dir, name), dir),
{
    let f = s.files[dir];
    let n = f.lookup(name)->0 as int;
    let k = f.position(name);
    let a = s.without_name(dir, name);
    let t = s.unlinked(dir, name);
    lemma_named(s, dir, name);
    lemma_without_name(s, dir, name);
    assert(a.files[n].cleared().wf());
    assert(t.wf()) by {
        assert forall|i: int| 0 <= i < t.files.len() implies (#[trigger] t.files[i]).wf() by {
            assert(a.files[i].wf());
        }
    }
    assert(t.files[dir] == a.files[dir]);
    let left = t.files[dir].entries();
    assert forall|i: int| 0 <= i < t.files.len() implies (#[trigger] t.files[i]).nlink
        == link_count(t, dir, i) by {
        lemma_count_removed(f.entries(), k, i);
        assert(s.files[i].nlink == link_count(s, dir, i));
        assert(t.files[i].nlink == a.files[i].nlink);
    }
    assert forall|j: int| 0 <= j < t.files[dir].entry_count() implies {
        &&& (#[trigger] t.files[dir].entries()[j]).inode_id < t.files.len()
        &&& t.files[dir].entries()[j].inode_id != dir
        &&& t.inode_used[t.files[dir].entries()[j].inode_id as int]
    } by {
        assert(left.len() == f.entries().len() - 1);
        let was = if j == k {
            f.entry_count() - 1
        } else {
            j
        };
        assert(left[j] == f.entries()[was]);
        let id = left[j].inode_id as int;
        lemma_has_link(t, dir, j);
        assert(t.files[id].nlink == link_count(t, dir, id));
    }
    assert forall|i: int|
        0 <= i < t.files.len() && i != dir && t.inode_used[i] implies (
    #[trigger] t.files[i]).nlink > 0 by {
        assert(s.files[i].nlink > 0);
    }
}

/// A name that was taken out of a directory with unique names is not found any more; the last
/// entry has the place of its entry. All other names stand for what they stood for, and the names
/// are still unique.
pub proof fn unlink_then_find(s: FsView, dir: int, name: Seq<u8>)
    requires
        s.wf(),
        0 <= dir < s.files.len(),
        names_unique(s, dir),
        s.files[dir].has(name),
        s.files[dir].lookup(name)->0 != dir,
        s.can_unlink(s.files[dir].lookup(name)->0 as int),
    ensures
        s.unlinked(dir, name).files[dir].entries() == s.files[dir].entries().update(
            s.files[dir].position(name),
            s.files[dir].entries().last(),
        ).drop_last(),
        s.unlinked(dir, name).files[dir].lookup(name) is None,
        forall|other: Seq<u8>|
            other != name ==> #[trigger] s.unlinked(dir, name).files[dir].lookup(other)
                == s.files[dir].lookup(other),
        names_unique(s.unlinked(dir, name), dir),
{
    let f = s.files[dir];
    let k = f.position(name);
    let t = s.unlinked(dir, name);
    let g = t.files[dir];
    lemma_without_name(s, dir, name);
    assert(g == s.without_name(dir, name).files[dir]);
    let es = f.entries();
    let last = es.len() - 1;
    let left = g.entries();
    assert(left == es.update(k, es.last()).drop_last());
    assert(left.len() == last);
    assert forall|j: int| 0 <= j < left.len() implies #[trigger] left[j] == es[if j == k {
        last
    } else {
        j
    }] by {}
    assert forall|j: int| 0 <= j < left.len() implies !model::has_name(name)(
        #[trigger] left[j],
    ) by {
        let was = if j == k {
            last
        } else {
            j
        };
        assert(left[j] == es[was]);
        if was < k {
            assert(es[was].name != es[k].name);
        } else {
            assert(es[k].name != es[was].name);
        }
    }
    seqs::lemma_first_index_is(left, model::has_name(name), left.len() as int);
    assert forall|other: Seq<u8>| other != name implies #[trigger] g.lookup(other) == f.lookup(
        other,
    ) by {
        model::lemma_position(f, other);
        model::lemma_position(g, other);
        if f.has(other) {
            let p = f.position(other);
            let now = if p == last {
                k
            } else {
                p
            };
            assert(p != k);
            assert(left[now] == es[p]);
            assert forall|j: int| 0 <= j < now implies !model::has_name(other)(
                #[trigger] left[j],
            ) by {
                let was = if j == k {
                    last
                } else {
                    j
                };
                assert(left[j] == es[was]);
                if was < p {
                    assert(es[was].name != es[p].name);
                } else if p < was {
                    assert(es[p].name != es[was].name);
                }
            }
            seqs::lemma_first_index_is(left, model::has_name(other), now);
        } else if g.has(other) {
            let q = g.position(other);
            assert(left[q] == es[if q == k {
                last
            } else {
                q
            }]);
            assert(es[if q == k {
                last
            } else {
                q
            }].name == other);
        }
    }
    assert forall|a: int, b: int| 0 <= a < b < g.entry_count() implies (
    #[trigger] g.entries()[a]).name != (#[trigger] g.entries()[b]).name by {
        let wa = if a == k {
            last
        } else {
            a
        };
        let wb = if b == k {
            last
        } else {
            b
        };
        assert(left[a] == es[wa] && left[b] == es[wb]);
        if wa < wb {
            assert(es[wa].name != es[wb].name);
        } else {
            assert(es[wb].name != es[wa].name);
        }
    }
}

/// A file that loses its last name is deleted: all its blocks, those that it was cut off from
/// among them, and its inode are free again. A file that keeps a name keeps its contents. All
/// other files are as before.
pub proof fn unlink_deletes_last(s: FsView, dir: int, name: Seq<u8>)
    requires
        names_wf(s, dir),
        s.files[dir].has(name),
    ensures
        ({
            let n = s.files[dir].lookup(name)->0 as int;
            let t = s.unlinked(dir, name);
            &&& if link_count(s, dir, n) == 1 {
                &&& !t.inode_used[n]
                &&& t.files[n].size == 0
                &&& t.files[n].nlink == 0
                &&& t.files[n].owned() == 0
                &&& t.free_blocks == s.free_blocks + s.files[n].owned()
            } else {
                &&& t.inode_used[n]
                &&& t.files[n].content() == s.files[n].content()
                &&& t.files[n].nlink == s.files[n].nlink - 1
                &&& t.free_blocks == s.free_blocks
            }
            &&& forall|i: int|
                0 <= i < s.files.len() && i != dir && i != n ==> (#[trigger] t.files[i])
                    == s.files[i] && t.inode_used[i] == s.inode_used[i]
        }),
{
    let n = s.files[dir].lookup(name)->0 as int;
    lemma_named(s, dir, name);
    lemma_without_name(s, dir, name);
    assert(s.files[n].nlink == link_count(s, dir, n));
    let t = s.unlinked(dir, name);
    if link_count(s, dir, n) != 1 {
        assert(t.files[n].content() =~= s.files[n].content());
    }
}

/// Taking out the name of a file that was just created gives the directory and the inodes back
/// as they were.
pub proof fn unlink_undoes_create(s: FsView, dir: int, name: Seq<u8>)
    requires
        s.wf(),
        0 <= dir < s.files.len(),
        s.next_inode() != dir,
        !s.files[dir].has(name),
        s.can_create(dir, name),
        !name.contains(0u8),
    ensures
        s.created(dir, name).unlinked(dir, name).files[dir].entries() == s.files[dir].entries(),
        s.created(dir, name).unlinked(dir, name).inode_used == s.inode_used,
        s.created(dir, name).unlinked(dir, name).next_inode() == s.next_inode(),
{
    let n = s.next_inode();
    let a = s.with_new_file();
    let t = s.created(dir, name);
    let u = t.unlinked(dir, name);
    lemma_new_inode(s);
    lemma_added(a, dir, name, n as u32);
    dirent::entry_roundtrip(name, n as u32);
    let entry = DirEntryView { name, inode_id: n as u32 };
    let es = s.files[dir].entries();
    lemma_lookup_added(s.files[dir], t.files[dir], entry, name);
    lemma_without_name(t, dir, name);
    let k = t.files[dir].position(name);
    assert(k == es.len()) by {
        model::lemma_position(s.files[dir], name);
        if k < es.len() {
            assert(t.files[dir].entries()[k] == es[k]);
        }
    }
    assert(u.files[dir].entries() =~= es);
    assert(u.inode_used =~= s.inode_used);
}

/// Taking out a name that a file was just linked under gives the directory, the link count and
/// the contents of the file back as they were.
pub proof fn unlink_undoes_link(s: FsView, dir: int, old_name: Seq<u8>, new_name: Seq<u8>)
    requires
        s.wf(),
        0 <= dir < s.files.len(),
        s.files[dir].has(old_name),
        s.files[dir].lookup(old_name)->0 != dir,
        s.files[s.files[dir].lookup(old_name)->0 as int].nlink > 0,
        !s.files[dir].has(new_name),
        s.can_link(dir, s.files[dir].lookup(old_name)->0 as int, new_name),
        !new_name.contains(0u8),
    ensures
        ({
            let n = s.files[dir].lookup(old_name)->0 as int;
            let u = s.linked(dir, n, new_name).unlinked(dir, new_name);
            &&& u.files[dir].entries() == s.files[dir].entries()
            &&& u.files[n] == s.files[n]
            &&& u.inode_used == s.inode_used
        }),
{
    let n = s.files[dir].lookup(old_name)->0 as int;
    let a = s.with_link(n);
    let t = s.linked(dir, n, new_name);
    let u = t.unlinked(dir, new_name);
    assert(a.wf()) by {
        assert(s.files[n].wf());
    }
    lemma_added(a, dir, new_name, n as u32);
    dirent::entry_roundtrip(new_name, n as u32);
    let entry = DirEntryView { name: new_name, inode_id: n as u32 };
    let es = s.files[dir].entries();
    lemma_lookup_added(s.files[dir], t.files[dir], entry, new_name);
    lemma_without_name(t, dir, new_name);
    let k = t.files[dir].position(new_name);
    assert(k == es.len()) by {
        model::lemma_position(s.files[dir], new_name);
        if k < es.len() {
            assert(t.files[dir].entries()[k] == es[k]);
        }
    }
    assert(u.files[dir].entries() =~= es);
    assert(u.files[n] =~= s.files[n]);
    assert(u.inode_used =~= s.inode_used);
}

/// A read gives back what a write wrote; the file ends where the written bytes end, and what it
/// held in front of them is as before. All other files are as before.
pub proof fn read_after_write(s: FsView, i: int, offset: int, bytes: Seq<u8>)
    requires
        s.wf(),
        0 <= i < s.files.len(),
        0 <= offset,
        s.can_write(i, offset, bytes.len() as int),
    ensures
        ({
            let t = s.written(i, offset, bytes);
            &&& t.files[i].size == offset + bytes.len()
            &&& model::read_len(t.files[i].size as int, offset, bytes.len() as int)
                == bytes.len()
            &&& seqs::window(t.files[i].content(), offset, bytes.len() as int) == bytes
            &&& forall|k: int|
                0 <= k < offset && k < s.files[i].size ==> #[trigger] t.files[i].content()[k]
                    == s.files[i].content()[k]
            &&& forall|j: int|
                0 <= j < s.files.len() && j != i ==> #[trigger] t.files[j] == s.files[j]
            &&& t.inode_used == s.inode_used
        }),
{
    let t = s.written(i, offset, bytes);
    assert(s.files[i].wf());
    assert(seqs::window(t.files[i].content(), offset, bytes.len() as int) =~= bytes);
}

/// What a file gains between its end and bytes that are written behind it is zero from the first
/// block on that it did not occupy.
pub proof fn gap_is_zero(s: FsView, i: int, offset: int, bytes: Seq<u8>, k: int)
    requires
        s.wf(),
        0 <= i < s.files.len(),
        s.can_write(i, offset, bytes.len() as int),
        model::block_count(s.files[i].size as int) * BLOCK_SZ <= k < offset,
    ensures
        s.written(i, offset, bytes).files[i].content()[k] == 0,
{
    assert(s.files[i].wf());
}

/// A file that was emptied holds nothing to read, and all its blocks, those that it was cut off
/// from among them, are free again.
pub proof fn clear_empties(s: FsView, i: int, offset: int, len: int)
    requires
        s.wf(),
        0 <= i < s.files.len(),
        0 <= offset,
        0 <= len,
    ensures
        s.cleared(i).files[i].content().len() == 0,
        model::read_len(s.cleared(i).files[i].size as int, offset, len) == 0,
        s.cleared(i).files[i].owned() == 0,
        s.cleared(i).free_blocks == s.free_blocks + s.files[i].owned(),
        s.cleared(i).files[i].nlink == s.files[i].nlink,
{
}

/// A write loses no block and makes none, whether the file grows or shrinks: the free blocks and
/// those of the file are together as many as before.
pub proof fn write_keeps_blocks(s: FsView, i: int, offset: int, bytes: Seq<u8>)
    requires
        s.wf(),
        0 <= i < s.files.len(),
        0 <= offset,
        s.can_write(i, offset, bytes.len() as int),
    ensures
        s.written(i, offset, bytes).wf(),
        s.written(i, offset, bytes).free_blocks + s.written(i, offset, bytes).files[i].owned()
            == s.free_blocks + s.files[i].owned(),
{
    let t = s.written(i, offset, bytes);
    model::lemma_resized_wf(s.files[i], offset + bytes.len());
    assert forall|j: int| 0 <= j < t.files.len() implies (#[trigger] t.files[j]).wf() by {
        assert(s.files[j].wf());
    }
}

/// A file that was written to, and cut off by a second write, gives back all its blocks when it is
/// emptied: as many are free as if it had been emptied before, which for a file that had no blocks
/// is as many as were free before it was written to.
pub proof fn clear_after_shrink(
    s: FsView,
    i: int,
    offset: int,
    bytes: Seq<u8>,
    cut: int,
    rest: Seq<u8>,
)
    requires
        s.wf(),
        0 <= i < s.files.len(),
        0 <= offset,
        s.can_write(i, offset, bytes.len() as int),
        0 <= cut,
        s.written(i, offset, bytes).can_write(i, cut, rest.len() as int),
    ensures
        ({
            let t = s.written(i, offset, bytes).written(i, cut, rest).cleared(i);
            &&& t.free_blocks == s.cleared(i).free_blocks
            &&& s.files[i].owned() == 0 ==> t.free_blocks == s.free_blocks
        }),
{
    write_keeps_blocks(s, i, offset, bytes);
    write_keeps_blocks(s.written(i, offset, bytes), i, cut, rest);
}

/// A file that was written to, and cut off by a second write, gives back all its blocks when its
/// only name is taken out: as many are free as if the name had been taken out before, which for a
/// file that had no blocks is as many as were free before it was written to.
pub proof fn unlink_after_shrink(
    s: FsView,
    dir: int,
    name: Seq<u8>,
    offset: int,
    bytes: Seq<u8>,
    cut: int,
    rest: Seq<u8>,
)
    requires
        names_wf(s, dir),
        s.files[dir].has(name),
        link_count(s, dir, s.files[dir].lookup(name)->0 as int) == 1,
        0 <= offset,
        s.can_write(s.files[dir].lookup(name)->0 as int, offset, bytes.len() as int),
        0 <= cut,
        s.written(s.files[dir].lookup(name)->0 as int, offset, bytes).can_write(
            s.files[dir].lookup(name)->0 as int,
            cut,
            rest.len() as int,
        ),
    ensures
        ({
            let n = s.files[dir].lookup(name)->0 as int;
            let t = s.written(n, offset, bytes).written(n, cut, rest).unlinked(dir, name);
            &&& t.free_blocks == s.unlinked(dir, name).free_blocks
            &&& s.files[n].owned() == 0 ==> t.free_blocks == s.free_blocks
        }),
{
    let n = s.files[dir].lookup(name)->0 as int;
    let w = s.written(n, offset, bytes);
    let x = w.written(n, cut, rest);
    lemma_named(s, dir, name);
    write_keeps_blocks(s, n, offset, bytes);
    write_keeps_blocks(w, n, cut, rest);
    contents_keep_names(s, dir, n, offset, bytes);
    contents_keep_names(w, dir, n, cut, rest);
    assert(x.files[dir] == s.files[dir]);
    unlink_deletes_last(s, dir, name);
    unlink_deletes_last(x, dir, name);
}

/// Writing to a file other than the directory, or emptying it, keeps the names of the directory
/// and the inodes in agreement.
pub proof fn contents_keep_names(s: FsView, dir: int, i: int, offset: int, bytes: Seq<u8>)
    requires
        names_wf(s, dir),
        0 <= i < s.files.len(),
        i != dir,
        0 <= offset,
        s.can_write(i, offset, bytes.len() as int),
    ensures
        names_wf(s.written(i, offset, bytes), dir),
        names_wf(s.cleared(i).synced(), dir),
{
    assert(s.files[i].wf());
    let t = s.written(i, offset, bytes);
    let u = s.cleared(i).synced();
    model::lemma_resized_wf(s.files[i], offset + bytes.len());
    assert(t.files[dir] == s.files[dir] && u.files[dir] == s.files[dir]);
    assert forall|j: int| 0 <= j < t.files.len() implies (#[trigger] t.files[j]).nlink
        == link_count(t, dir, j) by {
        assert(s.files[j].nlink == link_count(s, dir, j));
    }
    assert forall|j: int| 0 <= j < u.files.len() implies (#[trigger] u.files[j]).nlink
        == link_count(u, dir, j) by {
        assert(s.files[j].nlink == link_count(s, dir, j));
    }
    assert forall|j: int|
        0 <= j < t.files.len() && j != dir && t.inode_used[j] implies (
    #[trigger] t.files[j]).nlink > 0 by {
        assert(s.files[j].nlink > 0);
    }
    assert forall|j: int|
        0 <= j < u.files.len() && j != dir && u.inode_used[j] implies (
    #[trigger] u.files[j]).nlink > 0 by {
        assert(s.files[j].nlink > 0);
    }
    assert forall|j: int| 0 <= j < t.files.len() implies (#[trigger] t.files[j]).wf() by {
        assert(s.files[j].wf());
    }
    assert forall|j: int| 0 <= j < u.files.len() implies (#[trigger] u.files[j]).wf() by {
        assert(s.files[j].wf());
    }
}

/// Inodes that were found under names that stand for the same number are the same file, whatever
/// happens to the file system between: its link count and its contents are read from there.
pub proof fn same_number_same_file(s: FsView, t: FsView, a: &Inode, b: &Inode, inode_id: int)
    requires
        0 <= inode_id < t.files.len(),
        a.stands_for(s, inode_id),
        b.stands_for(t, inode_id),
        t.inode_area_start == s.inode_area_start,
    ensures
        a.valid(t) && b.valid(t),
        a.file(t) == b.file(t),
        a.file(t) == t.files[inode_id],
{
    efs::inode_pos_roundtrip(t, inode_id);
}

} // verus!
