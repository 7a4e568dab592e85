use texture_features::calculate_features_histogram;
use texture_features::histogram::{bin_bounds, column_counts, HISTOGRAM_BINS};

fn rgba(width: usize, height: usize, bright: &[(usize, usize)]) -> Vec<u8> {
    let mut img = vec![10u8; width * height * 4];
    for &(y, x) in bright {
        let p = 4 * (y * width + x);
        img[p] = 255;
        img[p + 1] = 230;
        img[p + 2] = 201;
    }
    img
}

#[test]
fn histogram_has_one_hundred_bins() {
    let img = rgba(7, 2, &[]);
    assert_eq!(calculate_features_histogram(&img, 7, 2).len(), HISTOGRAM_BINS);
}

#[test]
fn histogram_sums_to_bright_pixel_count() {
    let (w, h) = (37usize, 5usize);
    let mut bright = Vec::new();
    for y in 0..h {
        for x in 0..w {
            if (x * 3 + y * 5) % 7 < 3 {
                bright.push((y, x));
            }
        }
    }
    let img = rgba(w, h, &bright);
    let r = calculate_features_histogram(&img, w, h);
    assert_eq!(r.iter().map(|&v| v as usize).sum::<usize>(), bright.len());
}

#[test]
fn width_one_hundred_equals_column_counts() {
    let img = rgba(100, 3, &[(0, 0), (1, 0), (2, 5), (0, 99), (1, 42), (2, 42)]);
    let counts = column_counts(&img, 100, 3);
    let r = calculate_features_histogram(&img, 100, 3);
    assert_eq!(r, counts);
    assert_eq!(r[0], 2);
    assert_eq!(r[5], 1);
    assert_eq!(r[42], 2);
    assert_eq!(r[99], 1);
}

#[test]
fn dark_image_gives_zero_histogram() {
    let img = vec![200u8; 13 * 9 * 4];
    assert_eq!(calculate_features_histogram(&img, 13, 9), vec![0u32; 100]);
}

#[test]
fn threshold_is_strict_and_alpha_ignored() {
    // pixel 0: blue at 200, not bright; pixel 1: bright with alpha 0.
    let img = vec![201, 201, 200, 255, 201, 201, 201, 0];
    let counts = column_counts(&img, 2, 1);
    assert_eq!(counts, vec![0, 1]);
    let r = calculate_features_histogram(&img, 2, 1);
    // width 2: column 1 forms bin 99 alone.
    assert_eq!(r[99], 1);
    assert_eq!(r.iter().sum::<u32>(), 1);
}

#[test]
fn narrow_image_has_empty_bins() {
    let img = rgba(3, 1, &[(0, 0), (0, 1), (0, 2)]);
    let r = calculate_features_histogram(&img, 3, 1);
    let mut expected = vec![0u32; 100];
    expected[33] = 1;
    expected[66] = 1;
    expected[99] = 1;
    assert_eq!(r, expected);
}

#[test]
fn column_counts_count_rows() {
    let img = rgba(3, 4, &[(0, 1), (1, 1), (3, 1), (2, 2)]);
    assert_eq!(column_counts(&img, 3, 4), vec![0, 3, 1]);
}

#[test]
fn bin_bounds_of_fractional_width() {
    assert_eq!(bin_bounds(0, 250), (0, 2));
    assert_eq!(bin_bounds(1, 250), (2, 5));
    assert_eq!(bin_bounds(2, 250), (5, 7));
    assert_eq!(bin_bounds(99, 250), (247, 250));
}

#[test]
fn bin_bounds_meet_and_end_at_width() {
    for width in [1usize, 3, 99, 100, 101, 640, 1023] {
        assert_eq!(bin_bounds(0, width).0, 0);
        assert_eq!(bin_bounds(99, width).1, width);
        for i in 0..99 {
            assert_eq!(bin_bounds(i, width).1, bin_bounds(i + 1, width).0);
            assert!(bin_bounds(i, width).0 <= bin_bounds(i, width).1);
        }
    }
}

#[test]
fn bin_bounds_of_huge_width_do_not_overflow() {
    let (lo, hi) = bin_bounds(99, usize::MAX);
    assert_eq!(hi, usize::MAX);
    assert!(lo < hi);
}

#[test]
fn wide_bins_sum_their_columns() {
    // width 200: bin i covers columns 2i and 2i + 1.
    let img = rgba(200, 2, &[(0, 0), (1, 1), (0, 10), (1, 199)]);
    let r = calculate_features_histogram(&img, 200, 2);
    assert_eq!(r[0], 2);
    assert_eq!(r[5], 1);
    assert_eq!(r[99], 1);
    assert_eq!(r.iter().sum::<u32>(), 4);
}

#[test]
fn histogram_is_deterministic() {
    let img: Vec<u8> = (0..(21 * 4 * 4) as u32).map(|i| ((i * 37) % 256) as u8).collect();
    assert_eq!(
        calculate_features_histogram(&img, 21, 4),
        calculate_features_histogram(&img, 21, 4)
    );
}
