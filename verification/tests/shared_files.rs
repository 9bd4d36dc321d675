use rcore::efs::EasyFileSystem;
use rcore::model::DiskInodeType;
use rcore::shared::{Refused, SharedInode};
use rcore::vfs::Inode;

fn root() -> SharedInode {
    SharedInode::share(EasyFileSystem::new(1, 4, 4))
}

#[test]
fn shared_file_is_seen_by_every_holder() {
    let root = root();
    let file = root.create("a").unwrap().unwrap();
    assert_eq!(file.get_inode_id(), 1);
    assert_eq!(root.create("a").map(|new| new.is_none()), Ok(true));
    assert_eq!(file.write_at(0, b"text"), Ok(4));
    let again = root.find("a").unwrap().unwrap();
    let mut buf = [0u8; 8];
    assert_eq!(again.read_at(0, &mut buf), Ok(4));
    assert_eq!(&buf[..4], b"text");
    assert_eq!(root.link("a", "b"), Ok(0));
    assert_eq!(root.link("x", "y"), Ok(-1));
    assert_eq!(again.get_nlink(), Ok(2));
    assert_eq!(root.ls().unwrap(), vec!["a", "b"]);
    assert_eq!(root.unlink("a"), Ok(0));
    assert_eq!(root.unlink("a"), Ok(-1));
    assert!(root.find("a").unwrap().is_none());
    assert_eq!(file.get_nlink(), Ok(1));
    assert_eq!(again.clear(), Ok(()));
    assert_eq!(file.read_at(0, &mut buf), Ok(0));
    assert_eq!(root.get_inode_type(), Ok(DiskInodeType::Directory));
    assert_eq!(file.get_inode_type(), Ok(DiskInodeType::File));
}

#[test]
fn shared_operations_are_refused() {
    let root = root();
    assert_eq!(root.create(&"n".repeat(28)).err(), Some(Refused));
    let file = root.create("a").unwrap().unwrap();
    assert_eq!(file.find("b").err(), Some(Refused));
    assert_eq!(file.create("b").err(), Some(Refused));
    assert_eq!(file.link("b", "c"), Err(Refused));
    assert_eq!(file.unlink("b"), Err(Refused));
    assert_eq!(file.write_at(0, &[0u8; 4096]), Err(Refused));
    assert_eq!(file.write_at(0, &[0xffu8; 32]), Ok(32));
    assert_eq!(file.ls().err(), Some(Refused));
}

#[test]
fn write_back_is_due_after_changes_but_not_after_a_link() {
    let root = root();
    assert!(!root.take_sync_due());
    let file = root.create("a").unwrap().unwrap();
    assert!(root.take_sync_due());
    assert!(!root.take_sync_due());
    root.link("a", "b").unwrap();
    assert!(!root.take_sync_due());
    file.write_at(0, b"x").unwrap();
    assert!(root.take_sync_due());
    file.clear().unwrap();
    assert!(root.take_sync_due());
    root.unlink("b").unwrap();
    assert!(root.take_sync_due());
}

#[test]
fn inspected_file_system_is_the_shared_one() {
    let root = root();
    assert_eq!(root.inspect(|fs, inode| (fs.next_inode(), inode.ls(fs).len())), (1, 0));
    root.create("a").unwrap();
    assert_eq!(root.inspect(|fs, inode| (fs.next_inode(), inode.ls(fs).len())), (2, 1));
}

#[test]
fn shared_file_system_is_the_one_that_was_given() {
    let mut fs = EasyFileSystem::new(1, 4, 4);
    let (block, offset) = fs.get_disk_inode_pos(0);
    let dir = Inode::new(0, block as usize, offset);
    dir.create(&mut fs, "before").unwrap();
    let root = SharedInode::share(fs);
    assert_eq!(root.ls().unwrap(), vec!["before"]);
    let file = root.find("before").unwrap().unwrap();
    assert_eq!(file.write_at(0, b"seen"), Ok(4));
    let again = root.find("before").unwrap().unwrap();
    let mut buf = [0u8; 4];
    assert_eq!(again.read_at(0, &mut buf), Ok(4));
    assert_eq!(&buf, b"seen");
    assert_eq!(root.inspect(|fs, inode| inode.ls(fs)), vec!["before"]);
}

#[test]
fn handle_of_any_inode_of_the_shared_file_system() {
    let root = root();
    let file = root.create("a").unwrap().unwrap();
    file.write_at(0, b"text").unwrap();
    let (block, offset) = root.inspect(|fs, _| fs.get_disk_inode_pos(1));
    let same = root.with_inode(Inode::new(1, block as usize, offset));
    assert_eq!(same.get_inode_id(), 1);
    let mut buf = [0u8; 4];
    assert_eq!(same.read_at(0, &mut buf), Ok(4));
    assert_eq!(&buf, b"text");
    let outside = root.with_inode(Inode::new(9, 99, 0));
    assert_eq!(outside.get_nlink(), Err(Refused));
}
