use hello_fs::hello_fs::{FsError, HelloFs, HELLO_DIR_INO};
use hello_fs::hello_blocks::BLOCK_LIMIT;
use hello_fs::hello_inode::FileType;

const HELLO: &[u8] = b"hello hello world\n";

#[test]
fn new_filesystem_holds_hello_txt() {
    let fs = HelloFs::new();
    assert_eq!(fs.file_inode.len(), 1);
    assert_eq!(fs.block_infos.len(), 1);
    assert_eq!(fs.fs_size, 256);
    let a = fs.lookup("hello.txt").unwrap();
    assert_eq!(a.ino, 2);
    assert_eq!(a.size, 18);
    assert_eq!(a.kind, FileType::RegularFile);
    assert_eq!(fs.read(2, 0, 18).unwrap(), HELLO);
    let all = fs.read(2, 0, 1000).unwrap();
    assert_eq!(all.len(), 256);
    assert!(all[18..].iter().all(|&x| x == 0));
}

#[test]
fn lookup_unknown_name_is_not_found() {
    let fs = HelloFs::new();
    assert_eq!(fs.lookup("nope"), Err(FsError::NotFound));
}

#[test]
fn getattr_root_file_and_missing() {
    let fs = HelloFs::new();
    let d = fs.getattr(HELLO_DIR_INO).unwrap();
    assert_eq!(d.kind, FileType::Directory);
    assert_eq!(d.perm, 0o775);
    assert_eq!(fs.getattr(2).unwrap().size, 18);
    assert_eq!(fs.getattr(7), Err(FsError::NotFound));
    assert_eq!(fs.setattr(2).ino, 2);
    assert!(fs.can_setattr(2));
    assert!(!fs.can_setattr(7));
}

#[test]
fn read_rejects_low_inode_and_negative_offset() {
    let fs = HelloFs::new();
    assert_eq!(fs.read(1, 0, 10), Err(FsError::NotFound));
    assert_eq!(fs.read(2, -3, 10), Err(FsError::NotFound));
    assert_eq!(fs.read(2, 6, 5).unwrap(), b"hello");
    assert!(fs.can_read(2, 256, 1));
    assert!(!fs.can_read(2, 257, 1));
    assert!(!fs.can_read(9, 0, 1));
    assert!(fs.can_read(9, -1, 1));
}

#[test]
fn readdir_lists_dot_entries_then_files() {
    let fs = HelloFs::new();
    let v = fs.readdir(HELLO_DIR_INO, 0).unwrap();
    assert_eq!(
        v,
        vec![
            (1, 1, FileType::Directory, "."),
            (1, 2, FileType::Directory, ".."),
            (2, 3, FileType::RegularFile, "hello.txt"),
        ]
    );
    assert_eq!(fs.readdir(HELLO_DIR_INO, 2).unwrap(), vec![(2, 3, FileType::RegularFile, "hello.txt")]);
    assert!(fs.readdir(HELLO_DIR_INO, 3).unwrap().is_empty());
    assert!(fs.readdir(HELLO_DIR_INO, -1).unwrap().is_empty());
    assert_eq!(fs.readdir(2, 0), Err(FsError::NotFound));
}

#[test]
fn mknod_adds_file_with_smallest_free_number() {
    let mut fs = HelloFs::new();
    assert!(fs.can_mknod());
    let a = fs.mknod(1, "a", 0o644, 0).unwrap();
    assert_eq!(a.ino, 3);
    assert_eq!(a.size, 1);
    assert_eq!(a.blocks, 1);
    assert_eq!(fs.fs_size, 512);
    assert_eq!(fs.lookup("a").unwrap().ino, 3);
    assert_eq!(fs.read(3, 0, 300).unwrap(), &[0u8; 256][..]);
    // mknod always creates in the root directory
    let b = fs.mknod(42, "b", 0, 0).unwrap();
    assert_eq!(b.ino, 4);
}

#[test]
fn mknod_impl_ignores_other_parents() {
    let mut fs = HelloFs::new();
    assert_eq!(fs.mknod_impl(5, "x", 0, 0), (1, 0));
    assert_eq!(fs.file_inode.len(), 1);
    assert_eq!(fs.mknod_impl(1, "x", 0, 0), (3, 1));
}

#[test]
fn write_then_read_gives_data_back() {
    let mut fs = HelloFs::new();
    assert!(fs.can_write(2, 4, b"XYZ"));
    assert_eq!(fs.write(2, 4, b"XYZ"), Ok(7));
    assert_eq!(fs.read(2, 0, 10).unwrap(), b"hellXYZ\0\0\0");
    assert_eq!(fs.getattr(2).unwrap().size, 7);
    assert_eq!(fs.fs_size, 256);
}

#[test]
fn write_growing_file_updates_fs_size() {
    let mut fs = HelloFs::new();
    let data = vec![1u8; 300];
    assert_eq!(fs.write(2, 0, &data), Ok(300));
    assert_eq!(fs.fs_size, 512);
    assert_eq!(fs.block_infos[0].size(), 512);
    assert_eq!(fs.read(2, 0, 300).unwrap(), &data[..]);
}

#[test]
fn write_to_low_inode_or_negative_offset_is_not_supported() {
    let mut fs = HelloFs::new();
    assert_eq!(fs.write(1, 0, b"a"), Err(FsError::NotSupported));
    assert_eq!(fs.write(2, -1, b"a"), Err(FsError::NotSupported));
    assert_eq!(fs.read(2, 0, 18).unwrap(), HELLO);
}

#[test]
fn write_past_limit_is_not_accepted() {
    let fs = HelloFs::new();
    let big = vec![0u8; BLOCK_LIMIT];
    assert!(fs.can_write(2, 0, &big));
    assert!(!fs.can_write(2, 1, &big));
    assert!(!fs.can_write(9, 0, b"a"));
    assert!(fs.can_write(1, 0, b"a"));
}

#[test]
fn open_refuses_second_writer_until_release() {
    let mut fs = HelloFs::new();
    assert!(fs.can_open(2));
    let fh = fs.open(2, libc::O_WRONLY as u32).unwrap();
    assert_ne!(fh, 0);
    assert_eq!(fs.open(2, libc::O_RDWR as u32), Err(FsError::Busy));
    assert_eq!(fs.open(2, libc::O_RDONLY as u32), Ok(fh));
    assert!(fs.can_release(2, fh));
    assert!(!fs.can_release(2, fh + 1));
    fs.release(2, fh);
    assert_eq!(fs.open(2, libc::O_WRONLY as u32), Ok(fh));
    assert!(!fs.can_open(9));
}

#[test]
fn unlink_moves_last_block_into_freed_slot() {
    let mut fs = HelloFs::new();
    fs.mknod(1, "a", 0, 0).unwrap();
    fs.mknod(1, "b", 0, 0).unwrap();
    assert_eq!(fs.write(4, 0, &[3u8; 300]), Ok(300));
    assert_eq!(fs.fs_size, 256 + 256 + 512);
    assert!(fs.can_unlink("hello.txt"));
    fs.unlink("hello.txt");
    assert_eq!(fs.getattr(2), Err(FsError::NotFound));
    assert_eq!(fs.fs_size, 256 + 512);
    assert_eq!(fs.block_infos.len(), 2);
    // "b" (inode 4) had the last block; it now sits in slot 0
    let b = fs.getattr(4).unwrap();
    assert_eq!(b.blocks, 0);
    assert_eq!(b.size, 512);
    assert_eq!(fs.read(4, 0, 300).unwrap(), &[3u8; 300][..]);
    assert_eq!(fs.getattr(3).unwrap().blocks, 1);
    assert_eq!(fs.lookup("a").unwrap().ino, 3);
    assert!(!fs.can_unlink("hello.txt"));
}

#[test]
fn unlink_last_file_needs_no_move() {
    let mut fs = HelloFs::new();
    fs.mknod(1, "a", 0, 0).unwrap();
    fs.unlink("a");
    assert_eq!(fs.file_inode.len(), 1);
    assert_eq!(fs.lookup("hello.txt").unwrap().blocks, 0);
    assert_eq!(fs.fs_size, 256);
    // the freed number is used again
    assert_eq!(fs.mknod(1, "c", 0, 0).unwrap().ino, 3);
}

#[test]
fn open_with_given_access_bits() {
    let mut fs = HelloFs::new();
    let fh = fs.open_with_access_bits(2, 4, 4, 8).unwrap();
    assert!(fs.block_infos[0].is_writing);
    assert_eq!(fs.open_with_access_bits(2, 8, 4, 8), Err(FsError::Busy));
    assert_eq!(fs.open_with_access_bits(2, 1, 4, 8), Ok(fh));
    assert_eq!(fs.block_infos[0].read_cnt, 2);
}

#[test]
fn open_with_no_flags_is_read_only() {
    let mut fs = HelloFs::new();
    let fh = fs.open(2, libc::O_WRONLY as u32).unwrap();
    assert_eq!(fs.open(2, 0), Ok(fh));
    assert_eq!(fs.block_infos[0].read_cnt, 2);
}

#[test]
fn write_keeps_handle_state_and_block_unit() {
    let mut fs = HelloFs::new();
    let fh = fs.open(2, libc::O_WRONLY as u32).unwrap();
    assert_eq!(fs.write(2, 250, &[1u8; 20]), Ok(270));
    let b = &fs.block_infos[0];
    assert_eq!((b.fh as u64, b.read_cnt, b.is_writing), (fh, 1, true));
    assert_eq!(b.size() % 256, 0);
    assert_eq!(fs.dir_inode.perm, 0o775);
}

#[test]
fn write_impl_sets_size_of_given_inode() {
    let mut fs = HelloFs::new();
    fs.mknod(1, "a", 0, 0).unwrap();
    // write block 1 ("a") but record the size on inode 0
    assert_eq!(fs.write_impl(1, 0, 0, b"abc"), 3);
    assert_eq!(fs.file_inode[0].size, 3);
    assert_eq!(fs.read(3, 0, 3).unwrap(), b"abc");
    assert_eq!(fs.read(2, 0, 5).unwrap(), b"hello");
}

#[test]
fn mknod_keeps_root_and_sets_new_entry() {
    let mut fs = HelloFs::new();
    let root = fs.dir_inode;
    let a = fs.mknod(1, "n", 0, 0).unwrap();
    assert_eq!(fs.dir_inode, root);
    assert_eq!((a.size, a.kind, a.perm, a.blocks), (1, FileType::RegularFile, 0o644, 1));
    assert_eq!((fs.block_infos[1].read_cnt, fs.block_infos[1].is_writing), (0, false));
}
