use sdf::random::{hash64, HashedRandom2D16Bit, Random2D, RandomSlice2D, SeededRandom};

#[test]
fn hash64_known_values() {
    assert_eq!(hash64(0), 0);
    assert_eq!(hash64(1), 112001064128846);
    assert_eq!(hash64(12345), 49096773933366);
}

#[test]
fn hashed_generator_reads_lanes_of_the_hash() {
    let mut g = HashedRandom2D16Bit::new();
    assert_eq!(g.seed, 0);
    let h = hash64(1);
    for lane in 0..4u64 {
        assert_eq!(g.get_random(4 + lane), ((h >> (lane * 16)) & 0xFFFF) as u16);
    }
    g.set_seed(7);
    assert_eq!(g.seed, 7);
}

#[test]
fn hashed_generator_2d_folds_coordinates() {
    let g = HashedRandom2D16Bit::new();
    assert_eq!(g.get_random_2d(0, 0), 0);
    assert_eq!(g.get_random_2d(0, 1), 10152);
    let mut s = HashedRandom2D16Bit::new();
    s.set_seed(7);
    assert_eq!(s.get_random_2d(2, 2), 5116);
    // The hash keeps 48 bits, so the fourth lane is always zero.
    assert_eq!(s.get_random_2d(3, 2), 0);
}

#[test]
fn slice_starts_zeroed() {
    let slice: RandomSlice2D<HashedRandom2D16Bit> = RandomSlice2D::new(3, 2, 5);
    assert_eq!(slice.buffer.len(), 6);
    assert_eq!(slice.generator.seed, 5);
    for y in 0..2 {
        for x in 0..3 {
            assert_eq!(slice.get_value(x, y), 0);
        }
    }
}

#[test]
fn slice_fill_matches_generator() {
    let mut slice: RandomSlice2D<HashedRandom2D16Bit> = RandomSlice2D::new(4, 3, 7);
    slice.get_slice_at(1, 1);
    for y in 0..3usize {
        for x in 0..4usize {
            let expected = slice.generator.get_random_2d(1 + x as u64, 1 + y as u64);
            assert_eq!(slice.get_value(x, y), expected);
        }
    }
    assert_eq!(slice.get_value(0, 0), 16998);
    assert_eq!(slice.get_value(1, 1), 5116);
}

#[test]
fn slice_fill_wraps_coordinates() {
    let mut slice: RandomSlice2D<HashedRandom2D16Bit> = RandomSlice2D::new(2, 1, 0);
    slice.get_slice_at(u64::MAX, 0);
    assert_eq!(slice.get_value(0, 0), slice.generator.get_random_2d(u64::MAX, 0));
    assert_eq!(slice.get_value(1, 0), slice.generator.get_random_2d(0, 0));
}

#[test]
fn slice_resize_keeps_prefix_and_zero_fills() {
    let mut slice: RandomSlice2D<HashedRandom2D16Bit> = RandomSlice2D::new(2, 2, 3);
    slice.get_slice_at(10, 10);
    let before = slice.buffer.clone();
    slice.update_slice_dimentions(3, 2);
    assert_eq!(slice.width, 3);
    assert_eq!(slice.height, 2);
    assert_eq!(slice.buffer.len(), 6);
    assert_eq!(&slice.buffer[0..4], &before[..]);
    assert_eq!(slice.buffer[4], 0);
    assert_eq!(slice.buffer[5], 0);
    slice.update_slice_dimentions(1, 1);
    assert_eq!(slice.buffer, vec![before[0]]);
}

#[test]
fn critical_points_take_both_tails() {
    let mut slice: RandomSlice2D<HashedRandom2D16Bit> = RandomSlice2D::new(2, 2, 0);
    slice.buffer = vec![100, 30000, 65500, 16383];
    // 65536 * 1 / 4 = 16384: values below it or above 49152 qualify.
    let pts = slice.get_critical_points(1);
    assert_eq!(pts, vec![(0, 0), (0, 1), (1, 1)]);
    // No points requested: nothing below 0 or above 65536.
    assert_eq!(slice.get_critical_points(0), vec![]);
    // Saturated threshold: everything qualifies.
    assert_eq!(slice.get_critical_points(4).len(), 4);
}

#[test]
fn critical_points_of_empty_window() {
    let slice: RandomSlice2D<HashedRandom2D16Bit> = RandomSlice2D::new(0, 5, 0);
    assert_eq!(slice.get_critical_points(10), vec![]);
}
