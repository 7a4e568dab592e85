//! Column histogram of bright pixels in an RGBA image.
//!
//! A pixel is bright when its red, green and blue samples all exceed 200.
//! Bright pixels are counted per column, and the columns are gathered into
//! 100 contiguous bins of equal width `width / 100`.
use vstd::prelude::*;
use vstd::arithmetic::div_mod::lemma_div_is_ordered;

verus! {

/// Number of bins produced by [`calculate_features_histogram`].
pub const HISTOGRAM_BINS: usize = 100;

/// Samples per pixel: red, green, blue, alpha.
pub const CHANNELS: usize = 4;

/// Value that the red, green and blue samples of a bright pixel all exceed.
pub const BRIGHT_ABOVE: u8 = 200;

/// Pixel `p` of an RGBA buffer is bright: red, green and blue exceed 200.
pub open spec fn is_bright(img: Seq<u8>, p: int) -> bool {
    &&& img[4 * p] > 200
    &&& img[4 * p + 1] > 200
    &&& img[4 * p + 2] > 200
}

/// Bright pixels of column `x` among the first `n` rows.
pub open spec fn column_count(img: Seq<u8>, width: int, x: int, n: int) -> int
    decreases n,
{
    if n <= 0 {
        0
    } else {
        column_count(img, width, x, n - 1) + if is_bright(img, (n - 1) * width + x) {
            1int
        } else {
            0int
        }
    }
}

/// Sum of the column counts (over `height` rows) of the columns in `[lo, hi)`.
pub open spec fn column_sum(img: Seq<u8>, width: int, height: int, lo: int, hi: int) -> int
    decreases hi - lo,
{
    if hi <= lo {
        0
    } else {
        column_sum(img, width, height, lo, hi - 1) + column_count(img, width, hi - 1, height)
    }
}

/// First column of bin `i`: `floor(i * width / 100)`.
pub open spec fn bin_lower(i: int, width: int) -> int {
    i * width / 100
}

/// Column just past bin `i`: `floor((i + 1) * width / 100)`.
pub open spec fn bin_upper(i: int, width: int) -> int {
    (i + 1) * width / 100
}

/// Bright pixels in the columns of bin `i`.
pub open spec fn histogram_bin(img: Seq<u8>, width: int, height: int, i: int) -> int {
    column_sum(img, width, height, bin_lower(i, width), bin_upper(i, width))
}

/// The first `n` bins.
pub open spec fn histogram_prefix(img: Seq<u8>, width: int, height: int, n: int) -> Seq<int> {
    Seq::new(n as nat, |i: int| histogram_bin(img, width, height, i))
}

/// All 100 bins of the image.
pub open spec fn histogram(img: Seq<u8>, width: int, height: int) -> Seq<int> {
    histogram_prefix(img, width, height, 100)
}

proof fn lemma_column_count_bounds(img: Seq<u8>, width: int, x: int, n: int)
    requires
        n >= 0,
    ensures
        0 <= column_count(img, width, x, n) <= n,
    decreases n,
{
    if n > 0 {
        lemma_column_count_bounds(img, width, x, n - 1);
    }
}

proof fn lemma_column_sum_bounds(img: Seq<u8>, width: int, height: int, lo: int, hi: int)
    requires
        lo <= hi,
        height >= 0,
    ensures
        0 <= column_sum(img, width, height, lo, hi) <= (hi - lo) * height,
    decreases hi - lo,
{
    if lo < hi {
        lemma_column_sum_bounds(img, width, height, lo, hi - 1);
        lemma_column_count_bounds(img, width, hi - 1, height);
        assert((hi - lo) * height == (hi - 1 - lo) * height + height) by (nonlinear_arith);
    }
}

/// Bins start at zero, grow with their index, and bin 99 ends at `width`.
proof fn lemma_bin_order(width: int)
    requires
        width >= 0,
    ensures
        bin_lower(0, width) == 0,
        bin_upper(99, width) == width,
        forall|i: int, j: int|
            0 <= i <= j <= 100 ==> 0 <= #[trigger] bin_lower(i, width) <= #[trigger] bin_lower(
                j,
                width,
            ) <= width,
{
    assert forall|i: int, j: int| 0 <= i <= j <= 100 implies 0 <= #[trigger] bin_lower(
        i,
        width,
    ) <= #[trigger] bin_lower(j, width) <= width by {
        assert(0 <= i * width <= j * width <= 100 * width) by (nonlinear_arith)
            requires
                0 <= i <= j <= 100,
                width >= 0,
        ;
        lemma_div_is_ordered(i * width, j * width, 100);
        lemma_div_is_ordered(j * width, 100 * width, 100);
        lemma_div_is_ordered(0, i * width, 100);
    }
}

/// Sum of a sequence of integers.
pub open spec fn seq_sum(s: Seq<int>) -> int
    decreases s.len(),
{
    if s.len() == 0 {
        0
    } else {
        seq_sum(s.drop_last()) + s.last()
    }
}

/// Bright pixels among the first `n` pixels of an RGBA buffer.
pub open spec fn bright_count(img: Seq<u8>, n: int) -> int
    decreases n,
{
    if n <= 0 {
        0
    } else {
        bright_count(img, n - 1) + if is_bright(img, n - 1) {
            1int
        } else {
            0int
        }
    }
}

/// Bright pixels among the first `n` pixels of row `y`.
pub open spec fn row_bright(img: Seq<u8>, width: int, y: int, n: int) -> int
    decreases n,
{
    if n <= 0 {
        0
    } else {
        row_bright(img, width, y, n - 1) + if is_bright(img, y * width + n - 1) {
            1int
        } else {
            0int
        }
    }
}

proof fn lemma_column_sum_split(img: Seq<u8>, width: int, height: int, a: int, b: int, c: int)
    requires
        a <= b <= c,
    ensures
        column_sum(img, width, height, a, c) == column_sum(img, width, height, a, b) + column_sum(
            img,
            width,
            height,
            b,
            c,
        ),
    decreases c - b,
{
    if b < c {
        lemma_column_sum_split(img, width, height, a, b, c - 1);
    }
}

proof fn lemma_prefix_sum(img: Seq<u8>, width: int, height: int, n: int)
    requires
        width >= 0,
        0 <= n <= 100,
    ensures
        seq_sum(histogram_prefix(img, width, height, n)) == column_sum(
            img,
            width,
            height,
            0,
            bin_lower(n, width),
        ),
    decreases n,
{
    lemma_bin_order(width);
    if n > 0 {
        let s = histogram_prefix(img, width, height, n);
        assert(s.drop_last() =~= histogram_prefix(img, width, height, n - 1));
        lemma_prefix_sum(img, width, height, n - 1);
        assert(bin_lower(n - 1, width) <= bin_lower(n, width));
        assert(bin_upper(n - 1, width) == bin_lower(n, width));
        lemma_column_sum_split(img, width, height, 0, bin_lower(n - 1, width), bin_lower(n, width));
    }
}

proof fn lemma_column_sum_next_row(img: Seq<u8>, width: int, height: int, n: int)
    requires
        n >= 0,
        height >= 0,
    ensures
        column_sum(img, width, height + 1, 0, n) == column_sum(img, width, height, 0, n)
            + row_bright(img, width, height, n),
    decreases n,
{
    if n > 0 {
        lemma_column_sum_next_row(img, width, height, n - 1);
        assert(column_count(img, width, n - 1, height + 1) == column_count(img, width, n - 1, height)
            + if is_bright(img, height * width + n - 1) {
            1int
        } else {
            0int
        });
    }
}

proof fn lemma_bright_count_row(img: Seq<u8>, width: int, y: int, n: int)
    requires
        n >= 0,
        y >= 0,
        width >= 0,
    ensures
        bright_count(img, y * width + n) == bright_count(img, y * width) + row_bright(
            img,
            width,
            y,
            n,
        ),
    decreases n,
{
    assert(y * width >= 0) by (nonlinear_arith)
        requires
            y >= 0,
            width >= 0,
    ;
    if n > 0 {
        lemma_bright_count_row(img, width, y, n - 1);
    }
}

proof fn lemma_columns_total(img: Seq<u8>, width: int, height: int)
    requires
        width >= 0,
        height >= 0,
    ensures
        column_sum(img, width, height, 0, width) == bright_count(img, height * width),
    decreases height,
{
    if height > 0 {
        lemma_columns_total(img, width, height - 1);
        lemma_column_sum_next_row(img, width, height - 1, width);
        lemma_bright_count_row(img, width, height - 1, width);
        assert((height - 1) * width + width == height * width) by (nonlinear_arith);
    } else {
        lemma_column_sum_zero_rows(img, width, height, width);
    }
}

proof fn lemma_column_sum_zero_rows(img: Seq<u8>, width: int, height: int, n: int)
    requires
        height <= 0,
        n >= 0,
    ensures
        column_sum(img, width, height, 0, n) == 0,
    decreases n,
{
    if n > 0 {
        lemma_column_sum_zero_rows(img, width, height, n - 1);
    }
}

/// The 100 bins of an image of `width` by `height` pixels add up to the
/// number of bright pixels in it.
pub proof fn lemma_histogram_total(img: Seq<u8>, width: int, height: int)
    requires
        width >= 1,
        height >= 1,
        img.len() == width * height * 4,
    ensures
        histogram(img, width, height).len() == 100,
        seq_sum(histogram(img, width, height)) == bright_count(img, width * height),
{
    lemma_prefix_sum(img, width, height, 100);
    lemma_columns_total(img, width, height);
    assert(height * width == width * height) by (nonlinear_arith);
}

/// Bin boundaries run from column 0 to `width` without gap or overlap: each
/// bin ends where the next begins, no bin ends before it begins, and bin 99
/// ends at `width`.
pub proof fn lemma_bin_boundaries(width: int)
    requires
        width >= 1,
    ensures
        bin_lower(0, width) == 0,
        bin_upper(99, width) == width,
        forall|i: int| 0 <= i < 99 ==> #[trigger] bin_upper(i, width) == bin_lower(i + 1, width),
        forall|i: int|
            0 <= i < 100 ==> #[trigger] bin_lower(i, width) <= bin_upper(i, width) <= width,
{
    lemma_bin_order(width);
    assert forall|i: int| 0 <= i < 100 implies #[trigger] bin_lower(i, width) <= bin_upper(
        i,
        width,
    ) <= width by {
        assert(bin_lower(i, width) <= bin_lower(i + 1, width));
    }
}

/// In an image 100 columns wide each bin is a single column, so the
/// histogram is the column counts unchanged.
pub proof fn lemma_single_column_bins(img: Seq<u8>, height: int)
    requires
        height >= 1,
        img.len() == 100 * height * 4,
    ensures
        forall|i: int|
            0 <= i < 100 ==> #[trigger] bin_lower(i, 100) == i && bin_upper(i, 100) == i + 1,
        forall|i: int|
            0 <= i < 100 ==> #[trigger] histogram(img, 100, height)[i] == column_count(
                img,
                100,
                i,
                height,
            ),
{
    assert forall|i: int| 0 <= i < 100 implies #[trigger] histogram(img, 100, height)[i]
        == column_count(img, 100, i, height) by {
        assert(bin_lower(i, 100) == i);
        assert(bin_upper(i, 100) == i + 1);
        assert(column_sum(img, 100, height, i, i) == 0);
    }
}

proof fn lemma_dark_column(img: Seq<u8>, width: int, height: int, x: int, n: int)
    requires
        img.len() == width * height * 4,
        forall|j: int| 0 <= j < img.len() ==> #[trigger] img[j] <= 200,
        0 <= x < width,
        0 <= n <= height,
    ensures
        column_count(img, width, x, n) == 0,
    decreases n,
{
    if n > 0 {
        lemma_dark_column(img, width, height, x, n - 1);
        assert(0 <= 4 * ((n - 1) * width + x) < width * height * 4) by (nonlinear_arith)
            requires
                0 <= x < width,
                0 < n <= height,
        ;
        assert(img[4 * ((n - 1) * width + x)] <= 200);
    }
}

proof fn lemma_dark_columns(img: Seq<u8>, width: int, height: int, lo: int, hi: int)
    requires
        img.len() == width * height * 4,
        forall|j: int| 0 <= j < img.len() ==> #[trigger] img[j] <= 200,
        0 <= lo <= hi <= width,
        height >= 0,
    ensures
        column_sum(img, width, height, lo, hi) == 0,
    decreases hi - lo,
{
    if lo < hi {
        lemma_dark_columns(img, width, height, lo, hi - 1);
        lemma_dark_column(img, width, height, hi - 1, height);
    }
}

/// A buffer whose samples are all at most 200 has an all-zero histogram.
pub proof fn lemma_dark_image(img: Seq<u8>, width: int, height: int)
    requires
        width >= 1,
        height >= 1,
        img.len() == width * height * 4,
        forall|j: int| 0 <= j < img.len() ==> #[trigger] img[j] <= 200,
    ensures
        forall|i: int| 0 <= i < 100 ==> #[trigger] histogram(img, width, height)[i] == 0,
{
    lemma_bin_boundaries(width);
    assert forall|i: int| 0 <= i < 100 implies #[trigger] histogram(img, width, height)[i]
        == 0 by {
        lemma_dark_columns(img, width, height, bin_lower(i, width), bin_upper(i, width));
    }
}

/// Whether pixel `(y, x)` of an RGBA buffer is bright.
fn pixel_bright(image_data: &[u8], width: usize, height: usize, y: usize, x: usize) -> (r: bool)
    requires
        image_data@.len() == width * height * 4,
        y < height,
        x < width,
    ensures
        r == is_bright(image_data@, y * width + x),
{
    let len = image_data.len();
    proof {
        assert(0 <= y * width <= y * width + x < height * width) by (nonlinear_arith)
            requires
                y < height,
                x < width,
        ;
        assert(width * height == height * width) by (nonlinear_arith);
    }
    let p = CHANNELS * (y * width + x);
    assert(p + 2 < len);
    image_data[p] > BRIGHT_ABOVE && image_data[p + 1] > BRIGHT_ABOVE && image_data[p + 2]
        > BRIGHT_ABOVE
}

/// Counts the bright pixels of each column of an RGBA image of `width` by
/// `height` pixels.
pub fn column_counts(image_data: &[u8], width: usize, height: usize) -> (counts: Vec<u32>)
    requires
        image_data@.len() == width * height * 4,
        width * height <= u32::MAX,
    ensures
        counts@.len() == width,
        forall|x: int|
            0 <= x < width ==> #[trigger] counts@[x] as int == column_count(
                image_data@,
                width as int,
                x,
                height as int,
            ),
{
    let ghost img = image_data@;
    let mut counts: Vec<u32> = Vec::new();
    while counts.len() < width
        invariant
            counts@.len() <= width,
            forall|x: int| 0 <= x < counts@.len() ==> #[trigger] counts@[x] == 0,
        decreases width - counts@.len(),
    {
        counts.push(0);
    }
    let mut y: usize = 0;
    while y < height
        invariant
            image_data@ == img,
            img.len() == width * height * 4,
            width * height <= u32::MAX,
            y <= height,
            counts@.len() == width,
            forall|x: int|
                0 <= x < width ==> #[trigger] counts@[x] as int == column_count(
                    img,
                    width as int,
                    x,
                    y as int,
                ),
        decreases height - y,
    {
        let mut x: usize = 0;
        while x < width
            invariant
                image_data@ == img,
                img.len() == width * height * 4,
                width * height <= u32::MAX,
                y < height,
                x <= width,
                counts@.len() == width,
                forall|c: int|
                    0 <= c < x ==> #[trigger] counts@[c] as int == column_count(
                        img,
                        width as int,
                        c,
                        y + 1,
                    ),
                forall|c: int|
                    x <= c < width ==> #[trigger] counts@[c] as int == column_count(
                        img,
                        width as int,
                        c,
                        y as int,
                    ),
            decreases width - x,
        {
            if pixel_bright(image_data, width, height, y, x) {
                proof {
                    lemma_column_count_bounds(img, width as int, x as int, y as int);
                    assert(height <= width * height) by (nonlinear_arith)
                        requires
                            x < width,
                    ;
                }
                let v = counts[x] + 1;
                counts.set(x, v);
            }
            x = x + 1;
        }
        y = y + 1;
    }
    counts
}

/// The columns `[lo, hi)` of bin `i` of an image `width` columns wide.
pub fn bin_bounds(i: usize, width: usize) -> (r: (usize, usize))
    requires
        i < 100,
    ensures
        r.0 == bin_lower(i as int, width as int),
        r.1 == bin_upper(i as int, width as int),
        r.0 <= r.1 <= width,
{
    proof {
        lemma_bin_order(width as int);
        assert(bin_lower(i as int, width as int) <= bin_lower(i + 1, width as int));
    }
    let scaled_lo = (i as u128) * (width as u128);
    let scaled_hi = (i as u128 + 1) * (width as u128);
    ((scaled_lo / 100) as usize, (scaled_hi / 100) as usize)
}

/// Computes the 100-bin column histogram of bright pixels of an RGBA image
/// of `width` by `height` pixels.
///
/// Bin `i` holds the bright pixels of columns
/// `floor(i * width / 100)` up to, not including, `floor((i + 1) * width / 100)`.
pub fn calculate_features_histogram(image_data: &[u8], width: usize, height: usize) -> (r: Vec<
    u32,
>)
    requires
        image_data@.len() == width * height * 4,
        width * height <= u32::MAX,
    ensures
        r@.len() == HISTOGRAM_BINS,
        forall|i: int|
            0 <= i < 100 ==> #[trigger] r@[i] as int == histogram(
                image_data@,
                width as int,
                height as int,
            )[i],
{
    let ghost img = image_data@;
    let counts = column_counts(image_data, width, height);
    let mut r: Vec<u32> = Vec::new();
    let mut i: usize = 0;
    while i < HISTOGRAM_BINS
        invariant
            width * height <= u32::MAX,
            counts@.len() == width,
            forall|x: int|
                0 <= x < width ==> #[trigger] counts@[x] as int == column_count(
                    img,
                    width as int,
                    x,
                    height as int,
                ),
            i <= 100,
            r@.len() == i,
            forall|j: int|
                0 <= j < i ==> #[trigger] r@[j] as int == histogram_bin(
                    img,
                    width as int,
                    height as int,
                    j,
                ),
        decreases 100 - i,
    {
        let (lo, hi) = bin_bounds(i, width);
        let mut sum: u32 = 0;
        let mut x: usize = lo;
        while x < hi
            invariant
                width * height <= u32::MAX,
                counts@.len() == width,
                forall|c: int|
                    0 <= c < width ==> #[trigger] counts@[c] as int == column_count(
                        img,
                        width as int,
                        c,
                        height as int,
                    ),
                lo <= x <= hi,
                hi <= width,
                sum as int == column_sum(img, width as int, height as int, lo as int, x as int),
            decreases hi - x,
        {
            proof {
                lemma_column_sum_bounds(img, width as int, height as int, lo as int, x + 1);
                assert((x + 1 - lo) * height <= width * height) by (nonlinear_arith)
                    requires
                        0 <= x + 1 - lo <= width,
                ;
            }
            sum = sum + counts[x];
            x = x + 1;
        }
        r.push(sum);
        i = i + 1;
    }
    r
}

} // verus!
