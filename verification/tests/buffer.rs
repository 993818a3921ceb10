use rootvg::buffer::{byte_offset, next_copy_size, next_power_of_two, BufferSize};

#[test]
fn next_copy_sizes() {
    assert_eq!(next_copy_size(4, 1), 4);
    assert_eq!(next_copy_size(1, 0), 4);
    assert_eq!(next_copy_size(1, 2), 4);
    assert_eq!(next_copy_size(4, 3), 16);
    assert_eq!(next_copy_size(12, 3), 64);
    assert_eq!(next_copy_size(1, 5), 8);
    assert_eq!(next_copy_size(32, 128), 4096);
}

#[test]
fn powers_of_two() {
    assert_eq!(next_power_of_two(0), 1);
    assert_eq!(next_power_of_two(1), 1);
    assert_eq!(next_power_of_two(3), 4);
    assert_eq!(next_power_of_two(64), 64);
    assert_eq!(next_power_of_two(65), 128);
    assert_eq!(next_power_of_two(usize::MAX / 2 + 1), usize::MAX / 2 + 1);
}

#[test]
fn expand_to_fit() {
    let mut b = BufferSize::new(8, 3);
    assert_eq!(b.size, 32);
    assert!(!b.expand_to_fit_new_size(8, 4));
    assert_eq!(b.size, 32);
    assert!(b.expand_to_fit_new_size(8, 5));
    assert_eq!(b.size, 40);
    assert_eq!(byte_offset(3, 8), 24);
}
