use rcore::dirent::{DirEntry, DIRENT_SZ, NAME_LENGTH_LIMIT};
use rcore::efs::EasyFileSystem;
use rcore::model::{DiskInodeType, BLOCK_SZ};
use rcore::vfs::Inode;

fn fresh(inodes: u32, blocks: u32) -> (EasyFileSystem, Inode) {
    let fs = EasyFileSystem::new(2, inodes, blocks);
    let (block, offset) = fs.get_disk_inode_pos(0);
    (fs, Inode::new(0, block as usize, offset))
}

fn names(fs: &EasyFileSystem, dir: &Inode) -> Vec<String> {
    assert!(dir.can_ls(fs));
    dir.ls(fs)
}

#[test]
fn new_file_system_has_an_empty_root() {
    let (fs, root) = fresh(8, 16);
    assert_eq!(root.get_inode_type(&fs), DiskInodeType::Directory);
    assert_eq!(root.get_inode_id(), 0);
    assert_eq!(root.get_nlink(&fs), 0);
    assert!(names(&fs, &root).is_empty());
    assert_eq!(fs.free_blocks(), 16);
    assert_eq!(fs.next_inode(), 1);
    assert!(root.find(&fs, "a").is_none());
}

#[test]
fn inode_positions() {
    let (fs, _) = fresh(9, 4);
    assert_eq!(fs.get_disk_inode_pos(0), (2, 0));
    assert_eq!(fs.get_disk_inode_pos(3), (2, 384));
    assert_eq!(fs.get_disk_inode_pos(4), (3, 0));
    assert_eq!(fs.get_disk_inode_pos(8), (4, 0));
    for i in 0..9u32 {
        let (block, offset) = fs.get_disk_inode_pos(i);
        assert!(fs.is_inode_pos(block as usize, offset));
        assert_eq!(fs.inode_at(block as usize, offset), i as usize);
    }
    assert!(!fs.is_inode_pos(1, 0));
    assert!(!fs.is_inode_pos(2, 64));
    assert!(!fs.is_inode_pos(2, 512));
    assert!(!fs.is_inode_pos(4, 128));
}

#[test]
fn created_file_is_found() {
    let (mut fs, root) = fresh(8, 16);
    assert!(root.can_create(&fs, "filea"));
    let a = root.create(&mut fs, "filea").unwrap();
    assert_eq!(a.get_inode_id(), 1);
    assert_eq!(a.get_inode_type(&fs), DiskInodeType::File);
    assert_eq!(a.get_nlink(&fs), 1);
    assert!(fs.take_sync_due());
    let b = root.create(&mut fs, "fileb").unwrap();
    assert_eq!(b.get_inode_id(), 2);
    assert_eq!(root.find(&fs, "filea").unwrap().get_inode_id(), 1);
    assert_eq!(root.find(&fs, "fileb").unwrap().get_inode_id(), 2);
    assert!(root.find(&fs, "file").is_none());
    assert_eq!(names(&fs, &root), vec!["filea", "fileb"]);
    assert_eq!(fs.free_blocks(), 15);
}

#[test]
fn existing_name_is_not_created_again() {
    let (mut fs, root) = fresh(8, 16);
    root.create(&mut fs, "a").unwrap();
    assert!(fs.take_sync_due());
    assert!(root.can_create(&fs, "a"));
    assert!(root.create(&mut fs, "a").is_none());
    assert!(!fs.take_sync_due());
    assert_eq!(names(&fs, &root), vec!["a"]);
    assert_eq!(fs.next_inode(), 2);
}

#[test]
fn create_needs_an_inode_a_block_and_a_short_name() {
    let (mut fs, root) = fresh(2, 1);
    let long = "x".repeat(NAME_LENGTH_LIMIT + 1);
    assert!(!root.can_create(&fs, &long));
    assert!(root.can_create(&fs, &long[1..]));
    root.create(&mut fs, &long[1..]).unwrap();
    assert_eq!(names(&fs, &root), vec![long[1..].to_string()]);
    assert!(!root.can_create(&fs, "b"));
    let (fs, root) = fresh(4, 0);
    assert!(!root.can_create(&fs, "b"));
    let file = Inode::new(1, 2, 128);
    assert!(!file.can_create(&fs, "b"));
    assert!(!Inode::new(9, 7, 0).can_create(&fs, "b"));
}

#[test]
fn names_are_text() {
    let (mut fs, root) = fresh(8, 16);
    root.create(&mut fs, "caf\u{e9}").unwrap();
    root.create(&mut fs, "\u{6587}").unwrap();
    assert_eq!(names(&fs, &root), vec!["caf\u{e9}", "\u{6587}"]);
    assert_eq!(root.find(&fs, "\u{6587}").unwrap().get_inode_id(), 2);
}

#[test]
fn name_ends_at_a_zero_byte() {
    let (mut fs, root) = fresh(8, 16);
    root.create(&mut fs, "ab\0cd").unwrap();
    assert_eq!(names(&fs, &root), vec!["ab"]);
    assert_eq!(root.find(&fs, "ab").unwrap().get_inode_id(), 1);
    assert!(root.find(&fs, "ab\0cd").is_none());
}

#[test]
fn entry_bytes() {
    let entry = DirEntry::new("ab", 0x0403_0201);
    let bytes = entry.as_bytes().to_vec();
    assert_eq!(bytes.len(), DIRENT_SZ);
    assert_eq!(&bytes[0..4], &[97, 98, 0, 0]);
    assert_eq!(&bytes[28..32], &[1, 2, 3, 4]);
    assert_eq!(entry.name(), "ab");
    assert_eq!(entry.inode_id(), 0x0403_0201);
    let mut bad = DirEntry::empty();
    bad.as_bytes_mut()[0] = 0xff;
    assert!(!bad.has_text_name());
}

#[test]
fn listing_refuses_what_is_no_text() {
    let (mut fs, root) = fresh(8, 16);
    let file = root.create(&mut fs, "a").unwrap();
    let junk = vec![0xffu8; DIRENT_SZ];
    file.write_at(&mut fs, 0, &junk);
    assert!(!file.can_ls(&fs));
    assert!(root.can_ls(&fs));
}

#[test]
fn write_then_read() {
    let (mut fs, root) = fresh(8, 16);
    let file = root.create(&mut fs, "a").unwrap();
    assert!(fs.take_sync_due());
    let text = b"Hello, world!";
    assert!(file.can_write(&fs, 0, text.len()));
    assert_eq!(file.write_at(&mut fs, 0, text), 13);
    assert!(fs.take_sync_due());
    let mut buf = [9u8; 20];
    assert_eq!(file.read_at(&fs, 0, &mut buf), 13);
    assert_eq!(&buf[..13], text);
    assert_eq!(&buf[13..], &[9u8; 7]);
    assert_eq!(file.read_at(&fs, 7, &mut buf), 6);
    assert_eq!(&buf[..6], b"world!");
    assert_eq!(file.read_at(&fs, 13, &mut buf), 0);
    assert_eq!(file.read_at(&fs, usize::MAX, &mut buf), 0);
    let mut two = [0u8; 2];
    assert_eq!(file.read_at(&fs, 1, &mut two), 2);
    assert_eq!(&two, b"el");
}

#[test]
fn long_contents_cross_blocks() {
    let (mut fs, root) = fresh(8, 16);
    let a = root.create(&mut fs, "a").unwrap();
    let b = root.create(&mut fs, "b").unwrap();
    let data: Vec<u8> = (0..1300usize).map(|i| (i % 251) as u8).collect();
    let other: Vec<u8> = (0..700usize).map(|i| (i % 13) as u8).collect();
    assert_eq!(a.write_at(&mut fs, 0, &data[..600]), 600);
    assert_eq!(b.write_at(&mut fs, 0, &other), 700);
    assert_eq!(a.write_at(&mut fs, 600, &data[600..]), 700);
    let mut buf = vec![0u8; 2000];
    assert_eq!(a.read_at(&fs, 0, &mut buf), 1300);
    assert_eq!(&buf[..1300], &data[..]);
    assert_eq!(b.read_at(&fs, 0, &mut buf), 700);
    assert_eq!(&buf[..700], &other[..]);
    assert_eq!(fs.free_blocks(), 16 - 1 - 3 - 2);
}

#[test]
fn write_ends_the_file() {
    let (mut fs, root) = fresh(8, 16);
    let a = root.create(&mut fs, "a").unwrap();
    a.write_at(&mut fs, 0, b"0123456789");
    assert_eq!(a.write_at(&mut fs, 2, b"ab"), 2);
    let mut buf = [0u8; 16];
    assert_eq!(a.read_at(&fs, 0, &mut buf), 4);
    assert_eq!(&buf[..4], b"01ab");
}

#[test]
fn write_behind_the_end_leaves_a_gap() {
    let (mut fs, root) = fresh(8, 16);
    let a = root.create(&mut fs, "a").unwrap();
    a.write_at(&mut fs, 0, b"xy");
    a.write_at(&mut fs, 1100, b"z");
    let mut buf = vec![7u8; 1101];
    assert_eq!(a.read_at(&fs, 0, &mut buf), 1101);
    assert_eq!(&buf[..2], b"xy");
    assert!(buf[2..1100].iter().all(|b| *b == 0));
    assert_eq!(buf[1100], b'z');
}

#[test]
fn bytes_behind_an_end_in_the_same_block_come_back() {
    let (mut fs, root) = fresh(8, 16);
    let a = root.create(&mut fs, "a").unwrap();
    a.write_at(&mut fs, 0, b"0123456789");
    a.write_at(&mut fs, 0, b"ab");
    a.write_at(&mut fs, 6, b"z");
    let mut buf = [0u8; 16];
    assert_eq!(a.read_at(&fs, 0, &mut buf), 7);
    assert_eq!(&buf[..7], b"ab2345z");
}

#[test]
fn write_needs_blocks() {
    let (mut fs, root) = fresh(8, 3);
    let a = root.create(&mut fs, "a").unwrap();
    assert!(a.can_write(&fs, 0, 2 * BLOCK_SZ));
    assert!(!a.can_write(&fs, 0, 2 * BLOCK_SZ + 1));
    assert!(!a.can_write(&fs, u32::MAX as usize, 1));
    assert!(!a.can_write(&fs, usize::MAX, 1));
    a.write_at(&mut fs, 0, &[1u8; 1024]);
    assert_eq!(fs.free_blocks(), 0);
    assert!(a.can_write(&fs, 0, 10));
}

#[test]
fn clear_frees_the_blocks() {
    let (mut fs, root) = fresh(8, 16);
    let a = root.create(&mut fs, "a").unwrap();
    a.write_at(&mut fs, 0, &[5u8; 1025]);
    assert_eq!(fs.free_blocks(), 12);
    assert!(fs.take_sync_due());
    a.clear(&mut fs);
    assert!(fs.take_sync_due());
    assert_eq!(fs.free_blocks(), 15);
    let mut buf = [0u8; 4];
    assert_eq!(a.read_at(&fs, 0, &mut buf), 0);
    assert_eq!(a.get_nlink(&fs), 1);
    a.write_at(&mut fs, 600, b"k");
    let mut all = vec![1u8; 601];
    assert_eq!(a.read_at(&fs, 0, &mut all), 601);
    assert!(all[..600].iter().all(|b| *b == 0));
}

#[test]
fn blocks_that_a_write_cut_off_are_freed_by_clear() {
    let (mut fs, root) = fresh(8, 16);
    let a = root.create(&mut fs, "a").unwrap();
    a.write_at(&mut fs, 0, &[7u8; 2000]);
    assert_eq!(fs.free_blocks(), 11);
    a.write_at(&mut fs, 0, &[1u8]);
    assert_eq!(fs.free_blocks(), 11);
    a.clear(&mut fs);
    assert_eq!(fs.free_blocks(), 15);
}

#[test]
fn blocks_that_a_write_cut_off_are_freed_by_the_last_unlink() {
    let (mut fs, root) = fresh(8, 16);
    let a = root.create(&mut fs, "a").unwrap();
    a.write_at(&mut fs, 0, &[7u8; 2000]);
    a.write_at(&mut fs, 0, &[1u8]);
    assert_eq!(root.link(&mut fs, "a", "b"), 0);
    assert_eq!(root.unlink(&mut fs, "a"), 0);
    assert_eq!(fs.free_blocks(), 11);
    assert_eq!(root.unlink(&mut fs, "b"), 0);
    assert_eq!(fs.free_blocks(), 15);
}

#[test]
fn file_that_grows_again_gets_new_zero_blocks() {
    let (mut fs, root) = fresh(8, 16);
    let a = root.create(&mut fs, "a").unwrap();
    a.write_at(&mut fs, 0, &[7u8; 2000]);
    a.write_at(&mut fs, 0, &[1u8]);
    a.write_at(&mut fs, 1100, &[2u8]);
    assert_eq!(fs.free_blocks(), 9);
    let mut buf = vec![9u8; 1101];
    assert_eq!(a.read_at(&fs, 0, &mut buf), 1101);
    assert_eq!(buf[0], 1);
    assert!(buf[1..512].iter().all(|b| *b == 7));
    assert!(buf[512..1100].iter().all(|b| *b == 0));
    assert_eq!(buf[1100], 2);
    a.clear(&mut fs);
    assert_eq!(fs.free_blocks(), 15);
}

#[test]
fn directory_keeps_its_blocks_when_it_shrinks() {
    let (mut fs, root) = fresh(64, 16);
    for i in 0..17u32 {
        root.create(&mut fs, &format!("f{}", i)).unwrap();
    }
    assert_eq!(fs.free_blocks(), 14);
    assert_eq!(root.unlink(&mut fs, "f0"), 0);
    assert_eq!(fs.free_blocks(), 14);
    root.clear(&mut fs);
    assert_eq!(fs.free_blocks(), 16);
}

#[test]
fn linked_file_has_two_names() {
    let (mut fs, root) = fresh(8, 16);
    let a = root.create(&mut fs, "a").unwrap();
    a.write_at(&mut fs, 0, b"data");
    assert!(fs.take_sync_due());
    assert!(root.can_link(&fs, "a", "b"));
    assert_eq!(root.link(&mut fs, "a", "b"), 0);
    assert!(!fs.take_sync_due());
    let b = root.find(&fs, "b").unwrap();
    assert_eq!(b.get_inode_id(), a.get_inode_id());
    assert_eq!(a.get_nlink(&fs), 2);
    assert_eq!(b.get_nlink(&fs), 2);
    let mut buf = [0u8; 4];
    assert_eq!(b.read_at(&fs, 0, &mut buf), 4);
    assert_eq!(&buf, b"data");
    assert_eq!(names(&fs, &root), vec!["a", "b"]);
}

#[test]
fn link_fails_on_equal_names_and_on_a_missing_name() {
    let (mut fs, root) = fresh(8, 16);
    root.create(&mut fs, "a").unwrap();
    assert_eq!(root.link(&mut fs, "a", "a"), -1);
    assert_eq!(root.link(&mut fs, "b", "c"), -1);
    assert_eq!(names(&fs, &root), vec!["a"]);
    assert!(!root.can_link(&fs, "a", &"y".repeat(28)));
    assert!(root.can_link(&fs, "missing", &"y".repeat(28)));
    let file = root.find(&fs, "a").unwrap();
    assert!(file.can_link(&fs, "x", "x"));
    assert!(!file.can_link(&fs, "x", "y"));
}

#[test]
fn link_to_a_taken_name_leaves_both_entries() {
    let (mut fs, root) = fresh(8, 16);
    root.create(&mut fs, "a").unwrap();
    root.create(&mut fs, "b").unwrap();
    assert_eq!(root.link(&mut fs, "a", "b"), 0);
    assert_eq!(names(&fs, &root), vec!["a", "b", "b"]);
    assert_eq!(root.find(&fs, "b").unwrap().get_inode_id(), 2);
    assert_eq!(root.unlink(&mut fs, "b"), 0);
    assert_eq!(root.find(&fs, "b").unwrap().get_inode_id(), 1);
}

#[test]
fn unlink_keeps_a_file_that_has_another_name() {
    let (mut fs, root) = fresh(8, 16);
    let a = root.create(&mut fs, "a").unwrap();
    a.write_at(&mut fs, 0, b"data");
    root.link(&mut fs, "a", "b");
    assert!(fs.take_sync_due());
    assert!(root.can_unlink(&fs, "a"));
    assert_eq!(root.unlink(&mut fs, "a"), 0);
    assert!(fs.take_sync_due());
    assert!(root.find(&fs, "a").is_none());
    let b = root.find(&fs, "b").unwrap();
    assert_eq!(b.get_nlink(&fs), 1);
    let mut buf = [0u8; 4];
    assert_eq!(b.read_at(&fs, 0, &mut buf), 4);
    assert_eq!(&buf, b"data");
    assert!(fs.inode_in_use(1));
}

#[test]
fn unlink_of_the_last_name_deletes_the_file() {
    let (mut fs, root) = fresh(8, 16);
    let a = root.create(&mut fs, "a").unwrap();
    a.write_at(&mut fs, 0, &[3u8; 600]);
    assert_eq!(fs.free_blocks(), 13);
    assert_eq!(root.unlink(&mut fs, "a"), 0);
    assert_eq!(fs.free_blocks(), 15);
    assert!(!fs.inode_in_use(1));
    assert_eq!(fs.next_inode(), 1);
    assert!(names(&fs, &root).is_empty());
    assert_eq!(root.unlink(&mut fs, "a"), -1);
    let again = root.create(&mut fs, "c").unwrap();
    assert_eq!(again.get_inode_id(), 1);
    let mut buf = [0u8; 4];
    assert_eq!(again.read_at(&fs, 0, &mut buf), 0);
}

#[test]
fn unlink_moves_the_last_entry() {
    let (mut fs, root) = fresh(8, 16);
    for name in ["a", "b", "c", "d"] {
        root.create(&mut fs, name).unwrap();
    }
    assert_eq!(root.unlink(&mut fs, "b"), 0);
    assert_eq!(names(&fs, &root), vec!["a", "d", "c"]);
    assert_eq!(root.find(&fs, "d").unwrap().get_inode_id(), 4);
    assert_eq!(root.find(&fs, "c").unwrap().get_inode_id(), 3);
    assert_eq!(root.unlink(&mut fs, "c"), 0);
    assert_eq!(names(&fs, &root), vec!["a", "d"]);
}

#[test]
fn unlink_of_a_missing_name_fails() {
    let (mut fs, root) = fresh(8, 16);
    root.create(&mut fs, "a").unwrap();
    assert!(fs.take_sync_due());
    assert_eq!(root.unlink(&mut fs, "b"), -1);
    assert!(!fs.take_sync_due());
    assert_eq!(names(&fs, &root), vec!["a"]);
    let file = root.find(&fs, "a").unwrap();
    assert!(!file.can_unlink(&fs, "a"));
}

#[test]
fn unlink_undoes_link_and_create() {
    let (mut fs, root) = fresh(8, 16);
    root.create(&mut fs, "a").unwrap();
    root.link(&mut fs, "a", "b");
    root.unlink(&mut fs, "b");
    assert_eq!(names(&fs, &root), vec!["a"]);
    assert_eq!(root.find(&fs, "a").unwrap().get_nlink(&fs), 1);
    root.create(&mut fs, "c").unwrap();
    root.unlink(&mut fs, "c");
    assert_eq!(names(&fs, &root), vec!["a"]);
    assert_eq!(fs.next_inode(), 2);
}

#[test]
fn directory_grows_over_blocks() {
    let (mut fs, root) = fresh(64, 16);
    let mut want: Vec<String> = Vec::new();
    for i in 0..40u32 {
        let name = format!("file{}", i);
        assert_eq!(root.create(&mut fs, &name).unwrap().get_inode_id(), i as usize + 1);
        want.push(name);
    }
    assert_eq!(names(&fs, &root), want);
    assert_eq!(fs.free_blocks(), 13);
    for i in 0..40u32 {
        let name = format!("file{}", i);
        assert_eq!(root.find(&fs, &name).unwrap().get_inode_id(), i as usize + 1);
    }
}
