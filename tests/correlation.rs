use texture_features::calculate_features;
use texture_features::correlation::{
    first_order_direction, second_order_pair, Direction, CORRELATION_FEATURES,
};

fn image(width: usize, height: usize, on: &[(usize, usize)]) -> Vec<u8> {
    let mut img = vec![0u8; width * height];
    for &(y, x) in on {
        img[y * width + x] = 255;
    }
    img
}

#[test]
fn guard_width_too_small_gives_zeros() {
    let img = vec![255u8; 2 * 5];
    let f = calculate_features(&img, 2, 5, 1);
    assert_eq!(f, vec![0u32; 25]);
}

#[test]
fn guard_height_too_small_gives_zeros() {
    let img = vec![255u8; 9 * 4];
    let f = calculate_features(&img, 9, 4, 2);
    assert_eq!(f, vec![0u32; 25]);
}

#[test]
fn guard_huge_offset_gives_zeros() {
    let img = vec![255u8; 6 * 6];
    let f = calculate_features(&img, 6, 6, usize::MAX);
    assert_eq!(f, vec![0u32; 25]);
}

#[test]
fn empty_image_gives_zeros() {
    let f = calculate_features(&[], 0, 0, 0);
    assert_eq!(f.len(), CORRELATION_FEATURES);
    assert!(f.iter().all(|&v| v == 0));
}

#[test]
fn all_on_zero_offset_counts_every_pixel() {
    let img = vec![255u8; 3 * 4];
    let f = calculate_features(&img, 3, 4, 0);
    assert_eq!(f, vec![12u32; 25]);
}

#[test]
fn all_off_gives_zeros_for_every_offset() {
    let img = vec![0u8; 7 * 6];
    for corr in 0..5 {
        assert_eq!(calculate_features(&img, 7, 6, corr), vec![0u32; 25]);
    }
}

#[test]
fn samples_below_255_are_off() {
    let img = vec![254u8; 5 * 5];
    assert_eq!(calculate_features(&img, 5, 5, 1), vec![0u32; 25]);
}

#[test]
fn full_three_by_three_fires_every_feature_once() {
    let img = vec![255u8; 9];
    assert_eq!(calculate_features(&img, 3, 3, 1), vec![1u32; 25]);
}

#[test]
fn lone_centre_fires_only_zeroth_feature() {
    let img = image(3, 3, &[(1, 1)]);
    let f = calculate_features(&img, 3, 3, 1);
    let mut expected = vec![0u32; 25];
    expected[0] = 1;
    assert_eq!(f, expected);
}

#[test]
fn horizontal_line_fires_right_and_left_right() {
    let img = image(3, 3, &[(1, 0), (1, 1), (1, 2)]);
    let f = calculate_features(&img, 3, 3, 1);
    let mut expected = vec![0u32; 25];
    expected[0] = 1;
    expected[1] = 1;
    expected[5] = 1;
    assert_eq!(f, expected);
}

#[test]
fn diagonal_fires_upper_right_and_lower_left_pair() {
    // centre, upper-right (row 0, col 2) and lower-left (row 2, col 0)
    let img = image(3, 3, &[(0, 2), (1, 1), (2, 0)]);
    let f = calculate_features(&img, 3, 3, 1);
    let mut expected = vec![0u32; 25];
    expected[0] = 1;
    expected[2] = 1;
    expected[6] = 1;
    assert_eq!(f, expected);
}

#[test]
fn upper_corners_fire_feature_twenty_four() {
    let img = image(3, 3, &[(0, 0), (0, 2), (1, 1)]);
    let f = calculate_features(&img, 3, 3, 1);
    let mut expected = vec![0u32; 25];
    expected[0] = 1;
    expected[2] = 1;
    expected[4] = 1;
    expected[24] = 1;
    assert_eq!(f, expected);
}

#[test]
fn two_scan_positions_are_summed() {
    // 4 wide, 3 high, offset 1: centres (1,1) and (1,2).
    let img = image(4, 3, &[(1, 1), (1, 2)]);
    let f = calculate_features(&img, 4, 3, 1);
    let mut expected = vec![0u32; 25];
    // both centres on; (1,1) has its right neighbour (1,2) on.
    expected[0] = 2;
    expected[1] = 1;
    assert_eq!(f, expected);
}

#[test]
fn offset_two_reads_distant_neighbours() {
    // 5 by 5, offset 2: a single centre (2,2) with neighbours at the edges.
    let img = image(5, 5, &[(2, 2), (0, 2), (4, 2), (1, 2), (3, 2)]);
    let f = calculate_features(&img, 5, 5, 2);
    let mut expected = vec![0u32; 25];
    expected[0] = 1;
    expected[3] = 1;
    expected[7] = 1;
    assert_eq!(f, expected);
}

#[test]
fn correlation_is_deterministic() {
    let img: Vec<u8> = (0..64u32).map(|i| if (i * 7 + 3) % 3 == 0 { 255 } else { 17 }).collect();
    let a = calculate_features(&img, 8, 8, 1);
    let b = calculate_features(&img, 8, 8, 1);
    assert_eq!(a, b);
    assert_eq!(a.len(), 25);
}

#[test]
fn first_order_table_entries() {
    assert_eq!(first_order_direction(0), Direction::Right);
    assert_eq!(first_order_direction(1), Direction::UpRight);
    assert_eq!(first_order_direction(2), Direction::Up);
    assert_eq!(first_order_direction(3), Direction::UpLeft);
}

#[test]
fn second_order_table_entries() {
    assert_eq!(second_order_pair(0), (Direction::Left, Direction::Right));
    assert_eq!(second_order_pair(1), (Direction::LowLeft, Direction::UpRight));
    assert_eq!(second_order_pair(2), (Direction::Up, Direction::Down));
    assert_eq!(second_order_pair(13), (Direction::UpLeft, Direction::LowLeft));
    assert_eq!(second_order_pair(17), (Direction::UpRight, Direction::LowRight));
    assert_eq!(second_order_pair(19), (Direction::UpLeft, Direction::UpRight));
}
