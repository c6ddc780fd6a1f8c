use hello_fs::hello_blocks::{align_up, create_raw, BlockBox, BLOCK_LIMIT, BLOCK_UNIT};

fn block_with(bytes: &[u8]) -> BlockBox {
    BlockBox { data: bytes.to_vec() }
}

#[test]
fn create_raw_gives_zeroed_block() {
    let b = create_raw(BLOCK_UNIT);
    assert_eq!(b.size(), 256);
    assert!(b.data.iter().all(|&x| x == 0));
}

#[test]
fn read_is_cut_at_the_end_of_the_block() {
    let b = block_with(&[1, 2, 3, 4, 5]);
    assert_eq!(b.read(1, 2), &[2, 3]);
    assert_eq!(b.read(3, 100), &[4, 5]);
    assert_eq!(b.read(5, 10), &[] as &[u8]);
    assert_eq!(b.read(0, 0), &[] as &[u8]);
}

#[test]
fn write_inside_block_zeroes_the_rest() {
    let mut b = block_with(&[9; 8]);
    let r = b.write(0, &[1, 2], 3);
    assert_eq!(r, (true, 0, 5));
    assert_eq!(b.data, vec![9, 9, 9, 1, 2, 0, 0, 0]);
}

#[test]
fn write_past_end_grows_to_block_unit() {
    let mut b = create_raw(BLOCK_UNIT);
    let data = vec![7u8; 100];
    let r = b.write(256, &data, 200);
    assert_eq!(r, (true, 256, 300));
    assert_eq!(b.size(), 512);
    assert!(b.data[..200].iter().all(|&x| x == 0));
    assert!(b.data[200..300].iter().all(|&x| x == 7));
    assert!(b.data[300..].iter().all(|&x| x == 0));
}

#[test]
fn write_with_gap_fills_gap_with_zeros() {
    let mut b = block_with(&[5, 5]);
    let r = b.write(0, &[1], 10);
    assert_eq!(r, (true, 254, 11));
    assert_eq!(b.size(), 256);
    assert_eq!(&b.data[..12], &[5, 5, 0, 0, 0, 0, 0, 0, 0, 0, 1, 0]);
}

#[test]
fn write_exactly_to_block_end_does_not_grow() {
    let mut b = block_with(&[0; 4]);
    assert_eq!(b.write(0, &[1, 2, 3, 4], 0), (true, 0, 4));
    assert_eq!(b.data, vec![1, 2, 3, 4]);
}

#[test]
fn write_refused_for_negative_offset() {
    let mut b = block_with(&[1, 2, 3]);
    assert_eq!(b.write(0, &[4], -1), (false, 0, 0));
    assert_eq!(b.data, vec![1, 2, 3]);
}

#[test]
fn write_refused_past_block_limit() {
    let mut b = create_raw(BLOCK_UNIT);
    let fs_size = (BLOCK_LIMIT - 100) as i32;
    assert_eq!(b.write(fs_size, &[1; 10], 256), (false, 0, 0));
    assert_eq!(b.size(), 256);
    // the same write fits when the filesystem has room for the growth
    let fs_size = (BLOCK_LIMIT - 256) as i32;
    assert_eq!(b.write(fs_size, &[1; 10], 256), (true, 256, 266));
}

#[test]
fn write_refused_when_growing_with_negative_fs_size() {
    let mut b = create_raw(BLOCK_UNIT);
    assert_eq!(b.write(-1000, &[1; 10], 256), (false, 0, 0));
    // without growth a negative filesystem size does not matter
    assert_eq!(b.write(-1000, &[1; 10], 0), (true, 0, 10));
}

#[test]
fn read_after_write_gives_back_the_data() {
    let mut b = create_raw(BLOCK_UNIT);
    let data: Vec<u8> = (0..50u8).collect();
    assert!(b.write(0, &data, 230).0);
    assert_eq!(b.read(230, 50), &data[..]);
}

#[test]
fn align_up_rounds_to_unit() {
    assert_eq!(align_up(0, 256), 0);
    assert_eq!(align_up(1, 256), 256);
    assert_eq!(align_up(256, 256), 256);
    assert_eq!(align_up(257, 256), 512);
}
