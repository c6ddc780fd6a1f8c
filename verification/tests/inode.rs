use hello_fs::hello_inode::{
    dir_attr_for, file_attr_for, dir_attr_get, exists_ino, info_idx_get, inode_data_create, next_ino, FileAttr, FileType,
    INVALID_BLOCK_ID, INVALID_INO,
};

fn inodes(inos: &[u64]) -> Vec<FileAttr> {
    inos.iter().enumerate().map(|(i, &n)| inode_data_create(n, 1, i + 10)).collect()
}

#[test]
fn dir_attr_is_root_directory() {
    let a = dir_attr_get();
    assert_eq!(a.ino, 1);
    assert_eq!(a.size, 0);
    assert_eq!(a.blocks, 0xFFFFFFFF);
    assert_eq!(a.kind, FileType::Directory);
    assert_eq!(a.perm, 0o775);
    assert_eq!(a.nlink, 1);
    assert_eq!(a.uid, nix::unistd::getuid().as_raw());
    assert_eq!(a.gid, nix::unistd::getgid().as_raw());
    assert_eq!((a.rdev, a.flags), (0, 0));
}

#[test]
fn inode_data_is_regular_file() {
    let a = inode_data_create(7, 42, 3);
    assert_eq!((a.ino, a.size, a.blocks), (7, 42, 3));
    assert_eq!(a.kind, FileType::RegularFile);
    assert_eq!(a.perm, 0o644);
    assert_eq!(a.nlink, 1);
    assert_eq!(a.uid, nix::unistd::getuid().as_raw());
}

#[test]
fn exists_ino_finds_first_index() {
    let v = inodes(&[4, 2, 9, 2]);
    assert_eq!(exists_ino(&v, 2), 1);
    assert_eq!(exists_ino(&v, 9), 2);
    assert_eq!(exists_ino(&v, 5), INVALID_INO);
    assert_eq!(exists_ino(&Vec::new(), 1), INVALID_INO);
}

#[test]
fn info_idx_get_gives_block_of_first_match() {
    let v = inodes(&[4, 2, 9, 2]);
    assert_eq!(info_idx_get(&v, 2), 11);
    assert_eq!(info_idx_get(&v, 4), 10);
    assert_eq!(info_idx_get(&v, 3), INVALID_BLOCK_ID);
}

#[test]
fn next_ino_of_empty_table_is_two() {
    let r = next_ino(&Vec::new());
    assert_eq!(r.ino, 2);
    assert_eq!(r.index, 3);
}

#[test]
fn next_ino_fills_first_gap() {
    let r = next_ino(&inodes(&[2, 3, 5]));
    assert_eq!(r.ino, 4);
    assert_eq!(r.index, 6);
    assert_eq!(next_ino(&inodes(&[5, 3])).ino, 2);
    assert_eq!(next_ino(&inodes(&[3, 2, 4])).ino, 5);
}

#[test]
fn next_ino_ignores_duplicates() {
    assert_eq!(next_ino(&inodes(&[2, 2, 3, 3])).ino, 4);
    assert_eq!(next_ino(&inodes(&[1, 0, 2])).ino, 3);
}

#[test]
fn next_ino_counts_numbers_cut_to_32_bits() {
    // 2^32 + 2 is taken as 2
    assert_eq!(next_ino(&inodes(&[(1u64 << 32) + 2])).ino, 3);
}

#[test]
fn attrs_for_given_owner() {
    let d = dir_attr_for(1000, 100);
    assert_eq!((d.ino, d.size, d.blocks, d.kind, d.perm), (1, 0, 0xFFFFFFFF, FileType::Directory, 0o775));
    assert_eq!((d.uid, d.gid, d.nlink, d.rdev, d.flags), (1000, 100, 1, 0, 0));
    let f = file_attr_for(5, 9, 2, 7, 8);
    assert_eq!((f.ino, f.size, f.blocks, f.kind, f.perm), (5, 9, 2, FileType::RegularFile, 0o644));
    assert_eq!((f.uid, f.gid, f.nlink, f.rdev, f.flags), (7, 8, 1, 0, 0));
}

#[test]
fn next_ino_does_not_depend_on_order() {
    let a = next_ino(&inodes(&[2, 3, 6, 4]));
    let b = next_ino(&inodes(&[6, 4, 3, 2]));
    assert_eq!((a.ino, a.index), (b.ino, b.index));
    assert_eq!(a.ino, 5);
}
