use hello_fs::hello_block_info::{create, lookup, readdir, BlockInfo, INVALID_FH};
use hello_fs::hello_blocks::create_raw;
use hello_fs::hello_inode::FileType;

fn info(name: &str, ino: u64, fh: u16) -> BlockInfo {
    BlockInfo {
        ino,
        name: name.to_string(),
        bbox: create_raw(16),
        fh,
        read_cnt: 0,
        is_writing: false,
    }
}

#[test]
fn create_gives_fresh_file() {
    let b = create("a.txt".to_string(), 5);
    assert_eq!(b.name, "a.txt");
    assert_eq!(b.ino, 5);
    assert_eq!(b.size(), 256);
    assert!(b.bbox.data.iter().all(|&x| x == 0));
    assert_ne!(b.fh, INVALID_FH);
    assert_eq!(b.read_cnt, 0);
    assert!(!b.is_writing);
}

#[test]
fn create_never_uses_invalid_handle() {
    for i in 0..2000 {
        assert_ne!(create(String::new(), i).fh, INVALID_FH);
    }
}

#[test]
fn create_draws_varied_handles() {
    let first = create(String::new(), 2).fh;
    assert!((0..2000).any(|i| create(String::new(), i).fh != first));
}

#[test]
fn second_writer_is_refused() {
    let mut b = info("f", 2, 77);
    assert_eq!(b.open_with_access_bits(1, 1, 2), 77);
    assert!(b.is_writing);
    assert_eq!(b.read_cnt, 1);
    assert_eq!(b.open_with_access_bits(2, 1, 2), INVALID_FH);
    assert_eq!(b.read_cnt, 1);
    // a read-only open still succeeds
    assert_eq!(b.open_with_access_bits(0, 1, 2), 77);
    assert_eq!(b.read_cnt, 2);
}

#[test]
fn close_lets_a_writer_in_again() {
    let mut b = info("f", 2, 9);
    assert_eq!(b.open_with_access_bits(1, 1, 2), 9);
    b.close(9);
    assert_eq!(b.read_cnt, 0);
    assert!(!b.is_writing);
    assert_eq!(b.open_with_access_bits(1, 1, 2), 9);
}

#[test]
fn open_uses_platform_flags() {
    let mut b = info("f", 2, 9);
    assert_eq!(b.open(libc::O_RDONLY as u32), 9);
    assert!(!b.is_writing);
    assert_eq!(b.open(libc::O_WRONLY as u32), 9);
    assert!(b.is_writing);
    assert_eq!(b.open(libc::O_RDWR as u32), INVALID_FH);
    assert_eq!(b.read_cnt, 2);
}

#[test]
fn readdir_appends_regular_files() {
    let infos = vec![info("a", 2, 1), info("b", 3, 1)];
    let mut buf = vec![(1u64, FileType::Directory, ".")];
    readdir(&mut buf, &infos);
    assert_eq!(
        buf,
        vec![
            (1, FileType::Directory, "."),
            (2, FileType::RegularFile, "a"),
            (3, FileType::RegularFile, "b"),
        ]
    );
}

#[test]
fn lookup_finds_first_name_or_zero() {
    let infos = vec![info("a", 2, 1), info("b", 3, 1), info("b", 4, 1)];
    assert_eq!(lookup(&infos, "b".to_string()), 3);
    assert_eq!(lookup(&infos, "a".to_string()), 2);
    assert_eq!(lookup(&infos, "c".to_string()), 0);
}

#[test]
fn size_is_block_size() {
    assert_eq!(info("a", 2, 1).size(), 16);
}
