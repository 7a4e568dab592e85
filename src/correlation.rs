//! Local correlation features of a binarized single-channel image.
//!
//! Around a centre pixel, eight neighbours sit `corr` steps away in each
//! direction. Each of the 25 features counts the scan positions at which the
//! centre and a fixed set of neighbours (none, one or two) are all on.
use vstd::prelude::*;

verus! {

/// Number of features produced by [`calculate_features`].
pub const CORRELATION_FEATURES: usize = 25;

/// One of the eight neighbour positions around a centre pixel.
#[derive(Clone, Copy, Debug, PartialEq, Eq, Structural)]
pub enum Direction {
    Right,
    UpRight,
    Up,
    UpLeft,
    Left,
    LowLeft,
    Down,
    LowRight,
}

impl Direction {
    /// Row of the neighbour in this direction of the centre row `yc`.
    pub open spec fn row(self, yc: int, corr: int) -> int {
        match self {
            Direction::UpRight | Direction::Up | Direction::UpLeft => yc - corr,
            Direction::LowLeft | Direction::Down | Direction::LowRight => yc + corr,
            _ => yc,
        }
    }

    /// Column of the neighbour in this direction of the centre column `xc`.
    pub open spec fn col(self, xc: int, corr: int) -> int {
        match self {
            Direction::Right | Direction::UpRight | Direction::LowRight => xc + corr,
            Direction::Left | Direction::UpLeft | Direction::LowLeft => xc - corr,
            _ => xc,
        }
    }
}

/// The neighbour paired with the centre in features 1 to 4.
pub open spec fn first_order_spec(i: int) -> Direction {
    if i == 0 {
        Direction::Right
    } else if i == 1 {
        Direction::UpRight
    } else if i == 2 {
        Direction::Up
    } else {
        Direction::UpLeft
    }
}

/// The two neighbours joined with the centre in features 5 to 24.
pub open spec fn second_order_spec(i: int) -> (Direction, Direction) {
    if i == 0 {
        (Direction::Left, Direction::Right)
    } else if i == 1 {
        (Direction::LowLeft, Direction::UpRight)
    } else if i == 2 {
        (Direction::Up, Direction::Down)
    } else if i == 3 {
        (Direction::UpLeft, Direction::LowRight)
    } else if i == 4 {
        (Direction::Left, Direction::UpRight)
    } else if i == 5 {
        (Direction::LowLeft, Direction::Up)
    } else if i == 6 {
        (Direction::UpLeft, Direction::Down)
    } else if i == 7 {
        (Direction::Left, Direction::LowRight)
    } else if i == 8 {
        (Direction::LowLeft, Direction::Right)
    } else if i == 9 {
        (Direction::Down, Direction::UpRight)
    } else if i == 10 {
        (Direction::Up, Direction::LowRight)
    } else if i == 11 {
        (Direction::UpLeft, Direction::Right)
    } else if i == 12 {
        (Direction::Left, Direction::Up)
    } else if i == 13 {
        (Direction::UpLeft, Direction::LowLeft)
    } else if i == 14 {
        (Direction::Left, Direction::Down)
    } else if i == 15 {
        (Direction::LowLeft, Direction::LowRight)
    } else if i == 16 {
        (Direction::Down, Direction::Right)
    } else if i == 17 {
        (Direction::UpRight, Direction::LowRight)
    } else if i == 18 {
        (Direction::Up, Direction::Right)
    } else {
        (Direction::UpLeft, Direction::UpRight)
    }
}

/// The neighbour of feature `1 + i`, for `i < 4`.
pub fn first_order_direction(i: usize) -> (d: Direction)
    requires
        i < 4,
    ensures
        d == first_order_spec(i as int),
{
    match i {
        0 => Direction::Right,
        1 => Direction::UpRight,
        2 => Direction::Up,
        _ => Direction::UpLeft,
    }
}

/// The two neighbours of feature `5 + i`, for `i < 20`.
pub fn second_order_pair(i: usize) -> (p: (Direction, Direction))
    requires
        i < 20,
    ensures
        p == second_order_spec(i as int),
{
    match i {
        0 => (Direction::Left, Direction::Right),
        1 => (Direction::LowLeft, Direction::UpRight),
        2 => (Direction::Up, Direction::Down),
        3 => (Direction::UpLeft, Direction::LowRight),
        4 => (Direction::Left, Direction::UpRight),
        5 => (Direction::LowLeft, Direction::Up),
        6 => (Direction::UpLeft, Direction::Down),
        7 => (Direction::Left, Direction::LowRight),
        8 => (Direction::LowLeft, Direction::Right),
        9 => (Direction::Down, Direction::UpRight),
        10 => (Direction::Up, Direction::LowRight),
        11 => (Direction::UpLeft, Direction::Right),
        12 => (Direction::Left, Direction::Up),
        13 => (Direction::UpLeft, Direction::LowLeft),
        14 => (Direction::Left, Direction::Down),
        15 => (Direction::LowLeft, Direction::LowRight),
        16 => (Direction::Down, Direction::Right),
        17 => (Direction::UpRight, Direction::LowRight),
        18 => (Direction::Up, Direction::Right),
        _ => (Direction::UpLeft, Direction::UpRight),
    }
}

/// A pixel is on when its sample is exactly 255.
pub open spec fn pixel_on(img: Seq<u8>, width: int, y: int, x: int) -> bool {
    img[y * width + x] == 255
}

/// Whether the neighbour in direction `d` of the centre `(yc, xc)` is on.
pub open spec fn neighbor_on(
    img: Seq<u8>,
    width: int,
    corr: int,
    yc: int,
    xc: int,
    d: Direction,
) -> bool {
    pixel_on(img, width, d.row(yc, corr), d.col(xc, corr))
}

/// Whether feature `k` fires at the centre `(yc, xc)`: the centre and every
/// neighbour that the feature lists are on.
pub open spec fn term_on(img: Seq<u8>, width: int, corr: int, k: int, yc: int, xc: int) -> bool {
    &&& pixel_on(img, width, yc, xc)
    &&& if k == 0 {
        true
    } else if k < 5 {
        neighbor_on(img, width, corr, yc, xc, first_order_spec(k - 1))
    } else {
        let (a, b) = second_order_spec(k - 5);
        neighbor_on(img, width, corr, yc, xc, a) && neighbor_on(img, width, corr, yc, xc, b)
    }
}

/// Scan positions among the first `n` of scan row `y` at which feature `k`
/// fires; the centre of position `(y, x)` is `(y + corr, x + corr)`.
pub open spec fn row_count(img: Seq<u8>, width: int, corr: int, k: int, y: int, n: int) -> int
    decreases n,
{
    if n <= 0 {
        0
    } else {
        row_count(img, width, corr, k, y, n - 1) + if term_on(
            img,
            width,
            corr,
            k,
            y + corr,
            n - 1 + corr,
        ) {
            1int
        } else {
            0int
        }
    }
}

/// Scan positions in the first `m` scan rows at which feature `k` fires.
pub open spec fn grid_count(img: Seq<u8>, width: int, corr: int, k: int, m: int) -> int
    decreases m,
{
    if m <= 0 {
        0
    } else {
        grid_count(img, width, corr, k, m - 1) + row_count(
            img,
            width,
            corr,
            k,
            m - 1,
            width - 2 * corr,
        )
    }
}

/// Whether no neighbourhood of offset `corr` fits in the image.
pub open spec fn too_small(width: int, height: int, corr: int) -> bool {
    width <= 2 * corr || height <= 2 * corr
}

/// Feature `k` of the image: zero where no neighbourhood fits, else the
/// number of scan positions at which it fires.
pub open spec fn correlation_feature(img: Seq<u8>, width: int, height: int, corr: int, k: int) -> int {
    if too_small(width, height, corr) {
        0
    } else {
        grid_count(img, width, corr, k, height - 2 * corr)
    }
}

/// All 25 features of the image.
pub open spec fn correlation_features(img: Seq<u8>, width: int, height: int, corr: int) -> Seq<int> {
    Seq::new(25, |k: int| correlation_feature(img, width, height, corr, k))
}

proof fn lemma_row_count_bounds(img: Seq<u8>, width: int, corr: int, k: int, y: int, n: int)
    requires
        n >= 0,
    ensures
        0 <= row_count(img, width, corr, k, y, n) <= n,
    decreases n,
{
    if n > 0 {
        lemma_row_count_bounds(img, width, corr, k, y, n - 1);
    }
}

proof fn lemma_grid_count_bounds(img: Seq<u8>, width: int, corr: int, k: int, m: int)
    requires
        m >= 0,
        width - 2 * corr >= 0,
    ensures
        0 <= grid_count(img, width, corr, k, m) <= m * (width - 2 * corr),
    decreases m,
{
    if m > 0 {
        lemma_grid_count_bounds(img, width, corr, k, m - 1);
        lemma_row_count_bounds(img, width, corr, k, m - 1, width - 2 * corr);
        assert(m * (width - 2 * corr) == (m - 1) * (width - 2 * corr) + (width - 2 * corr))
            by (nonlinear_arith);
    }
}

proof fn lemma_full_rows(img: Seq<u8>, width: int, height: int, k: int, y: int, n: int)
    requires
        img.len() == width * height,
        forall|j: int| 0 <= j < img.len() ==> #[trigger] img[j] == 255,
        0 <= y < height,
        0 <= n <= width,
    ensures
        row_count(img, width, 0, k, y, n) == n,
    decreases n,
{
    if n > 0 {
        lemma_full_rows(img, width, height, k, y, n - 1);
        lemma_index_in_grid(y, n - 1, width, height);
        assert(width * height == height * width) by (nonlinear_arith);
        assert(pixel_on(img, width, y, n - 1));
        assert forall|d: Direction| #[trigger] neighbor_on(img, width, 0, y, n - 1, d) by {
            assert(d.row(y, 0) == y && d.col(n - 1, 0) == n - 1);
        }
        assert(term_on(img, width, 0, k, y, n - 1));
    }
}

proof fn lemma_full_grid(img: Seq<u8>, width: int, height: int, k: int, m: int)
    requires
        img.len() == width * height,
        forall|j: int| 0 <= j < img.len() ==> #[trigger] img[j] == 255,
        0 <= m <= height,
        width >= 0,
    ensures
        grid_count(img, width, 0, k, m) == m * width,
    decreases m,
{
    if m > 0 {
        lemma_full_grid(img, width, height, k, m - 1);
        lemma_full_rows(img, width, height, k, m - 1, width);
        assert(m * width == (m - 1) * width + width) by (nonlinear_arith);
        assert(grid_count(img, width, 0, k, m) == grid_count(img, width, 0, k, m - 1) + row_count(
            img,
            width,
            0,
            k,
            m - 1,
            width,
        ));
    } else {
        assert(m * width == 0) by (nonlinear_arith)
            requires
                m == 0,
        ;
    }
}

/// With offset 0 every neighbour is the centre itself, so on an image whose
/// samples are all 255 each of the 25 features counts every pixel:
/// `width * height`.
pub proof fn lemma_all_on_zero_offset(img: Seq<u8>, width: int, height: int)
    requires
        width >= 1,
        height >= 1,
        img.len() == width * height,
        forall|j: int| 0 <= j < img.len() ==> #[trigger] img[j] == 255,
    ensures
        forall|k: int|
            0 <= k < 25 ==> #[trigger] correlation_features(img, width, height, 0)[k] == width
                * height,
{
    assert forall|k: int| 0 <= k < 25 implies #[trigger] correlation_features(
        img,
        width,
        height,
        0,
    )[k] == width * height by {
        lemma_full_grid(img, width, height, k, height);
        assert(height * width == width * height) by (nonlinear_arith);
    }
}

proof fn lemma_empty_rows(
    img: Seq<u8>,
    width: int,
    height: int,
    corr: int,
    k: int,
    y: int,
    n: int,
)
    requires
        img.len() == width * height,
        forall|j: int| 0 <= j < img.len() ==> #[trigger] img[j] != 255,
        corr >= 0,
        0 <= y,
        y + corr < height,
        0 <= n,
        n + corr <= width,
    ensures
        row_count(img, width, corr, k, y, n) == 0,
    decreases n,
{
    if n > 0 {
        lemma_empty_rows(img, width, height, corr, k, y, n - 1);
        lemma_index_in_grid(y + corr, n - 1 + corr, width, height);
        assert(width * height == height * width) by (nonlinear_arith);
        assert(!pixel_on(img, width, y + corr, n - 1 + corr));
    }
}

proof fn lemma_empty_grid(img: Seq<u8>, width: int, height: int, corr: int, k: int, m: int)
    requires
        img.len() == width * height,
        forall|j: int| 0 <= j < img.len() ==> #[trigger] img[j] != 255,
        corr >= 0,
        width > 2 * corr,
        0 <= m <= height - 2 * corr,
    ensures
        grid_count(img, width, corr, k, m) == 0,
    decreases m,
{
    if m > 0 {
        lemma_empty_grid(img, width, height, corr, k, m - 1);
        lemma_empty_rows(img, width, height, corr, k, m - 1, width - 2 * corr);
    }
}

/// An image with no sample equal to 255 has no pixel on, so every feature is
/// zero, whatever the offset.
pub proof fn lemma_all_off(img: Seq<u8>, width: int, height: int, corr: int)
    requires
        width >= 0,
        height >= 0,
        corr >= 0,
        img.len() == width * height,
        forall|j: int| 0 <= j < img.len() ==> #[trigger] img[j] != 255,
    ensures
        forall|k: int|
            0 <= k < 25 ==> #[trigger] correlation_features(img, width, height, corr)[k] == 0,
{
    assert forall|k: int| 0 <= k < 25 implies #[trigger] correlation_features(
        img,
        width,
        height,
        corr,
    )[k] == 0 by {
        if !too_small(width, height, corr) {
            lemma_empty_grid(img, width, height, corr, k, height - 2 * corr);
        }
    }
}

/// Where the neighbourhood does not fit, every one of the 25 features is
/// zero, whatever the image holds.
pub proof fn lemma_too_small_is_zero(img: Seq<u8>, width: int, height: int, corr: int)
    requires
        width >= 0,
        height >= 0,
        corr >= 0,
        width <= 2 * corr || height <= 2 * corr,
    ensures
        correlation_features(img, width, height, corr).len() == 25,
        forall|k: int|
            0 <= k < 25 ==> #[trigger] correlation_features(img, width, height, corr)[k] == 0,
{
}

/// The index of pixel `(y, x)` lies inside a `width` by `height` buffer.
proof fn lemma_index_in_grid(y: int, x: int, width: int, height: int)
    requires
        0 <= y < height,
        0 <= x < width,
    ensures
        0 <= y * width <= y * width + x < height * width,
{
    assert(0 <= y * width <= y * width + x < height * width) by (nonlinear_arith)
        requires
            0 <= y < height,
            0 <= x < width,
    ;
}

/// Whether pixel `(y, x)` is on.
fn sample_on(image_data: &[u8], width: usize, height: usize, y: usize, x: usize) -> (r: bool)
    requires
        image_data@.len() == width * height,
        y < height,
        x < width,
    ensures
        r == pixel_on(image_data@, width as int, y as int, x as int),
{
    let len = image_data.len();
    proof {
        lemma_index_in_grid(y as int, x as int, width as int, height as int);
        assert(y * width + x < len);
    }
    image_data[y * width + x] == 255
}

/// The on/off state of a centre pixel and its eight neighbours.
struct Neighborhood {
    center: bool,
    right: bool,
    up_right: bool,
    up: bool,
    up_left: bool,
    left: bool,
    low_left: bool,
    down: bool,
    low_right: bool,
}

impl Neighborhood {
    spec fn spec_at(self, d: Direction) -> bool {
        match d {
            Direction::Right => self.right,
            Direction::UpRight => self.up_right,
            Direction::Up => self.up,
            Direction::UpLeft => self.up_left,
            Direction::Left => self.left,
            Direction::LowLeft => self.low_left,
            Direction::Down => self.down,
            Direction::LowRight => self.low_right,
        }
    }

    fn at(&self, d: Direction) -> (r: bool)
        ensures
            r == self.spec_at(d),
    {
        match d {
            Direction::Right => self.right,
            Direction::UpRight => self.up_right,
            Direction::Up => self.up,
            Direction::UpLeft => self.up_left,
            Direction::Left => self.left,
            Direction::LowLeft => self.low_left,
            Direction::Down => self.down,
            Direction::LowRight => self.low_right,
        }
    }

    /// Reads the neighbourhood of offset `corr` around `(yc, xc)`.
    fn read(image_data: &[u8], width: usize, height: usize, corr: usize, yc: usize, xc: usize) -> (n:
        Neighborhood)
        requires
            image_data@.len() == width * height,
            corr <= yc,
            yc + corr < height,
            corr <= xc,
            xc + corr < width,
        ensures
            n.center == pixel_on(image_data@, width as int, yc as int, xc as int),
            forall|d: Direction|
                #[trigger] n.spec_at(d) == neighbor_on(
                    image_data@,
                    width as int,
                    corr as int,
                    yc as int,
                    xc as int,
                    d,
                ),
    {
        Neighborhood {
            center: sample_on(image_data, width, height, yc, xc),
            right: sample_on(image_data, width, height, yc, xc + corr),
            up_right: sample_on(image_data, width, height, yc - corr, xc + corr),
            up: sample_on(image_data, width, height, yc - corr, xc),
            up_left: sample_on(image_data, width, height, yc - corr, xc - corr),
            left: sample_on(image_data, width, height, yc, xc - corr),
            low_left: sample_on(image_data, width, height, yc + corr, xc - corr),
            down: sample_on(image_data, width, height, yc + corr, xc),
            low_right: sample_on(image_data, width, height, yc + corr, xc + corr),
        }
    }
}

/// Computes the 25 local correlation features of a binarized image of
/// `width` by `height` one-byte samples, with neighbours `corr` steps away.
///
/// Feature 0 counts the scan positions whose centre is on, features 1 to 4
/// the centre with one neighbour, features 5 to 24 the centre with two.
/// Where the neighbourhood does not fit (`width <= 2 * corr` or
/// `height <= 2 * corr`) every feature is zero.
pub fn calculate_features(image_data: &[u8], width: usize, height: usize, corr: usize) -> (r: Vec<
    u32,
>)
    requires
        image_data@.len() == width * height,
        width * height <= u32::MAX,
    ensures
        r@.len() == CORRELATION_FEATURES,
        forall|k: int|
            0 <= k < 25 ==> #[trigger] r@[k] as int == correlation_features(
                image_data@,
                width as int,
                height as int,
                corr as int,
            )[k],
        too_small(width as int, height as int, corr as int) ==> forall|k: int|
            0 <= k < 25 ==> #[trigger] r@[k] == 0,
{
    let mut f: Vec<u32> = Vec::new();
    while f.len() < CORRELATION_FEATURES
        invariant
            f@.len() <= 25,
            forall|j: int| 0 <= j < f@.len() ==> #[trigger] f@[j] == 0,
        decreases 25 - f@.len(),
    {
        f.push(0);
    }
    if corr > usize::MAX / 2 || width <= 2 * corr || height <= 2 * corr {
        return f;
    }
    let ghost img = image_data@;
    let scan_h = height - 2 * corr;
    let scan_w = width - 2 * corr;
    proof {
        assert(scan_h * scan_w <= height * width) by (nonlinear_arith)
            requires
                0 <= scan_h <= height,
                0 <= scan_w <= width,
        ;
    }
    let mut y: usize = 0;
    while y < scan_h
        invariant
            image_data@ == img,
            img.len() == width * height,
            width * height <= u32::MAX,
            scan_h == height - 2 * corr,
            scan_w == width - 2 * corr,
            scan_h * scan_w <= height * width,
            y <= scan_h,
            f@.len() == 25,
            forall|j: int|
                0 <= j < 25 ==> #[trigger] f@[j] as int == grid_count(
                    img,
                    width as int,
                    corr as int,
                    j,
                    y as int,
                ),
        decreases scan_h - y,
    {
        let mut x: usize = 0;
        while x < scan_w
            invariant
                image_data@ == img,
                img.len() == width * height,
                width * height <= u32::MAX,
                scan_h == height - 2 * corr,
                scan_w == width - 2 * corr,
                scan_h * scan_w <= height * width,
                y < scan_h,
                x <= scan_w,
                f@.len() == 25,
                forall|j: int|
                    0 <= j < 25 ==> #[trigger] f@[j] as int == grid_count(
                        img,
                        width as int,
                        corr as int,
                        j,
                        y as int,
                    ) + row_count(img, width as int, corr as int, j, y as int, x as int),
            decreases scan_w - x,
        {
            let yc = y + corr;
            let xc = x + corr;
            let nb = Neighborhood::read(image_data, width, height, corr, yc, xc);
            proof {
                assert(y * scan_w + x < scan_h * scan_w) by (nonlinear_arith)
                    requires
                        0 <= y < scan_h,
                        0 <= x < scan_w,
                ;
            }
            let mut k: usize = 0;
            while k < CORRELATION_FEATURES
                invariant
                    image_data@ == img,
                    img.len() == width * height,
                    width * height <= u32::MAX,
                    scan_w == width - 2 * corr,
                    scan_h * scan_w <= height * width,
                    y < scan_h,
                    x < scan_w,
                    yc == y + corr,
                    xc == x + corr,
                    y * scan_w + x < scan_h * scan_w,
                    nb.center == pixel_on(img, width as int, yc as int, xc as int),
                    forall|d: Direction|
                        #[trigger] nb.spec_at(d) == neighbor_on(
                            img,
                            width as int,
                            corr as int,
                            yc as int,
                            xc as int,
                            d,
                        ),
                    k <= 25,
                    f@.len() == 25,
                    forall|j: int|
                        0 <= j < k ==> #[trigger] f@[j] as int == grid_count(
                            img,
                            width as int,
                            corr as int,
                            j,
                            y as int,
                        ) + row_count(img, width as int, corr as int, j, y as int, x + 1),
                    forall|j: int|
                        k <= j < 25 ==> #[trigger] f@[j] as int == grid_count(
                            img,
                            width as int,
                            corr as int,
                            j,
                            y as int,
                        ) + row_count(img, width as int, corr as int, j, y as int, x as int),
                decreases 25 - k,
            {
                let fires = if k == 0 {
                    nb.center
                } else if k < 5 {
                    nb.center && nb.at(first_order_direction(k - 1))
                } else {
                    let (a, b) = second_order_pair(k - 5);
                    nb.center && nb.at(a) && nb.at(b)
                };
                assert(fires == term_on(
                    img,
                    width as int,
                    corr as int,
                    k as int,
                    yc as int,
                    xc as int,
                ));
                if fires {
                    proof {
                        lemma_grid_count_bounds(img, width as int, corr as int, k as int, y as int);
                        lemma_row_count_bounds(
                            img,
                            width as int,
                            corr as int,
                            k as int,
                            y as int,
                            x as int,
                        );
                        assert(y * scan_w + x + 1 <= u32::MAX);
                    }
                    let v = f[k] + 1;
                    f.set(k, v);
                }
                k = k + 1;
            }
            x = x + 1;
        }
        y = y + 1;
    }
    f
}

} // verus!
