use crate::dimensions::Dimensions;
use crate::ratio::{
    clamped_round, clamped_round_u128, lemma_round_identity, lemma_round_whole, round_div,
};
use crate::sampler::{
    lemma_uniform_rectangle, most_popular_color, plurality, SampleRange, Shape,
};
use crate::stitch_image::{image_view, Color, Image, ImageView};
use vstd::arithmetic::div_mod::lemma_fundamental_div_mod_converse;
use vstd::prelude::*;

verus! {

/// The colours of a fabric's stitches, row after row from the top, each
/// row from the left. `None` is a place without a stitch.
#[derive(Clone, Debug)]
pub struct Grid {
    pub colors: Vec<Option<Color>>,
    pub n_stitches: u16,
    pub n_rows: u16,
}

/// A grid as a mathematical value.
pub struct GridView {
    pub n_stitches: int,
    pub n_rows: int,
    pub colors: Seq<Option<Color>>,
}

impl View for Grid {
    type V = GridView;

    open spec fn view(&self) -> GridView {
        GridView {
            n_stitches: self.n_stitches as int,
            n_rows: self.n_rows as int,
            colors: self.colors@,
        }
    }
}

/// Where the stitch of column `x` and row `y` stands in a grid with rows
/// of `n_stitches` stitches.
pub open spec fn cell_index(n_stitches: int, x: int, y: int) -> int {
    y * n_stitches + x
}

/// Each place of a grid has an index of its own.
pub proof fn lemma_cell_index(n_stitches: int, n_rows: int, x: int, y: int)
    requires
        0 <= x < n_stitches,
        0 <= y < n_rows,
    ensures
        0 <= cell_index(n_stitches, x, y) < n_rows * n_stitches,
        cell_index(n_stitches, x, y) / n_stitches == y,
        cell_index(n_stitches, x, y) % n_stitches == x,
{
    assert(0 <= y * n_stitches && (y + 1) * n_stitches <= n_rows * n_stitches)
        by (nonlinear_arith)
        requires
            0 <= y < n_rows,
            0 < n_stitches,
    ;
    assert((y + 1) * n_stitches == y * n_stitches + n_stitches) by (nonlinear_arith);
    lemma_fundamental_div_mod_converse(cell_index(n_stitches, x, y), n_stitches, y, x);
}

/// Each index of a grid is that of one place.
pub proof fn lemma_cell_of_index(n_stitches: int, n_rows: int, index: int)
    requires
        0 <= index < n_rows * n_stitches,
        0 <= n_stitches,
    ensures
        0 <= index % n_stitches < n_stitches,
        0 <= index / n_stitches < n_rows,
        cell_index(n_stitches, index % n_stitches, index / n_stitches) == index,
{
    assert(n_stitches > 0) by (nonlinear_arith)
        requires
            0 <= index < n_rows * n_stitches,
            0 <= n_stitches,
    ;
    vstd::arithmetic::div_mod::lemma_fundamental_div_mod(index, n_stitches);
    vstd::arithmetic::div_mod::lemma_mod_bound(index, n_stitches);
    let q = index / n_stitches;
    assert(n_stitches * q == q * n_stitches) by (nonlinear_arith);
    assert(0 <= q < n_rows) by (nonlinear_arith)
        requires
            0 <= index < n_rows * n_stitches,
            index == q * n_stitches + index % n_stitches,
            0 <= index % n_stitches < n_stitches,
    ;
}

impl GridView {
    /// The grid has as many colours as it has places.
    pub open spec fn wf(self) -> bool {
        &&& 0 <= self.n_stitches <= u16::MAX
        &&& 0 <= self.n_rows <= u16::MAX
        &&& self.colors.len() == self.n_rows * self.n_stitches
    }

    /// The place `(x, y)` is one of the grid.
    pub open spec fn contains(self, x: int, y: int) -> bool {
        0 <= x < self.n_stitches && 0 <= y < self.n_rows
    }

    /// The colour at column `x` of row `y`, both counted from 0 at the
    /// top left.
    pub open spec fn at(self, x: int, y: int) -> Option<Color> {
        self.colors[cell_index(self.n_stitches, x, y)]
    }
}

/// The height of one row in pixels is `height_num / height_den`: the width
/// of a stitch in pixels, times the gauge in stitches, by the gauge in rows.
pub open spec fn height_num(img: ImageView, d: Dimensions) -> int {
    img.width * d.gauge_stitches.num * d.gauge_rows.den
}

/// See `height_num`.
pub open spec fn height_den(d: Dimensions) -> int {
    d.stitches * d.gauge_stitches.den * d.gauge_rows.num
}

/// The number of rows of the fabric: the image's height by the height of a
/// row, rounded, and no more than 65535. An image without width has a row
/// height of zero: it gives 65535 rows if it has a height, and none if not.
pub open spec fn fabric_rows(img: ImageView, d: Dimensions) -> int {
    if height_num(img, d) == 0 {
        if img.height == 0 {
            0
        } else {
            u16::MAX as int
        }
    } else {
        clamped_round(img.height * height_den(d), height_num(img, d), u16::MAX as int)
    }
}

/// Rows are sampled in blocks of `duplicate_rows` rows, counted from the
/// bottom of the fabric. This is the lowest row of the block of row `y`.
pub open spec fn block_bottom(n_rows: int, duplicate_rows: int, y: int) -> int {
    n_rows - 1 - (n_rows - 1 - y) / duplicate_rows * duplicate_rows
}

/// The highest row of the block whose lowest row is `bottom`.
pub open spec fn block_top(duplicate_rows: int, bottom: int) -> int {
    if bottom >= duplicate_rows - 1 {
        bottom - (duplicate_rows - 1)
    } else {
        0
    }
}

/// The pixels that the stitch at column `x` of row `y` is sampled from:
/// in width those of its column, in height those of its whole block.
pub open spec fn cell_range(img: ImageView, d: Dimensions, x: int, y: int) -> SampleRange {
    let bottom = block_bottom(fabric_rows(img, d), d.duplicate_rows as int, y);
    let top = block_top(d.duplicate_rows as int, bottom);
    SampleRange {
        start_x: clamped_round(x * img.width, d.stitches as int, u32::MAX as int) as u32,
        end_x: clamped_round((x + 1) * img.width, d.stitches as int, img.width) as u32,
        start_y: clamped_round(top * height_num(img, d), height_den(d), u32::MAX as int) as u32,
        end_y: clamped_round((bottom + 1) * height_num(img, d), height_den(d), img.height) as u32,
    }
}

/// The colour of the stitch at column `x` of row `y`: the one that occurs
/// most often among the pixels it is sampled from.
pub open spec fn cell_color(img: ImageView, d: Dimensions, x: int, y: int) -> Option<Color> {
    plurality(img, cell_range(img, d, x, y), Shape::Rectangle)
}

/// The grid that an image is resampled to.
pub open spec fn resampled(img: ImageView, d: Dimensions) -> GridView {
    let n_rows = fabric_rows(img, d);
    GridView {
        n_stitches: d.stitches as int,
        n_rows,
        colors: Seq::new(
            (n_rows * d.stitches) as nat,
            |i: int| cell_color(img, d, i % (d.stitches as int), i / (d.stitches as int)),
        ),
    }
}

/// The rows of one block have the same lowest row.
pub proof fn lemma_block_bottom(n_rows: int, duplicate_rows: int, block: int, above: int)
    requires
        duplicate_rows >= 1,
        block >= 0,
        0 <= above < duplicate_rows,
    ensures
        block_bottom(n_rows, duplicate_rows, n_rows - 1 - (block * duplicate_rows + above))
            == n_rows - 1 - block * duplicate_rows,
{
    lemma_fundamental_div_mod_converse(
        block * duplicate_rows + above,
        duplicate_rows,
        block,
        above,
    );
}

/// A row lies in the block that ends at its lowest row: between the top
/// and the bottom of that block, which is a block of its own.
pub proof fn lemma_block_of(n_rows: int, duplicate_rows: int, y: int)
    requires
        duplicate_rows >= 1,
        0 <= y < n_rows,
    ensures
        ({
            let bottom = block_bottom(n_rows, duplicate_rows, y);
            &&& block_top(duplicate_rows, bottom) <= y <= bottom < n_rows
            &&& forall|row: int|
                block_top(duplicate_rows, bottom) <= row <= bottom ==> #[trigger] block_bottom(
                    n_rows,
                    duplicate_rows,
                    row,
                ) == bottom
        }),
{
    let below = n_rows - 1 - y;
    let block = below / duplicate_rows;
    let above = below % duplicate_rows;
    vstd::arithmetic::div_mod::lemma_fundamental_div_mod(below, duplicate_rows);
    vstd::arithmetic::div_mod::lemma_mod_bound(below, duplicate_rows);
    assert(duplicate_rows * block == block * duplicate_rows) by (nonlinear_arith);
    assert(block >= 0 && block * duplicate_rows >= 0) by (nonlinear_arith)
        requires
            below == block * duplicate_rows + above,
            0 <= above < duplicate_rows,
            below >= 0,
    ;
    let bottom = block_bottom(n_rows, duplicate_rows, y);
    assert(bottom == n_rows - 1 - block * duplicate_rows);
    assert forall|row: int|
        block_top(duplicate_rows, bottom) <= row <= bottom implies #[trigger] block_bottom(
        n_rows,
        duplicate_rows,
        row,
    ) == bottom by {
        lemma_block_bottom(n_rows, duplicate_rows, block, bottom - row);
    }
}

/// A grid seen as an image: one pixel for each place.
pub open spec fn grid_image(g: GridView) -> ImageView {
    ImageView {
        width: g.n_stitches,
        height: g.n_rows,
        pixel: |x: int, y: int|
            if g.contains(x, y) {
                g.at(x, y)
            } else {
                None
            },
    }
}

/// The rows of each block of the image are alike.
pub open spec fn blocks_alike(img: ImageView, duplicate_rows: int) -> bool {
    forall|x: int, y: int|
        0 <= x < img.width && 0 <= y < img.height ==> #[trigger] (img.pixel)(x, y) == (img.pixel)(
            x,
            block_bottom(img.height, duplicate_rows, y),
        )
}

/// The image has the size of the fabric that is made of it: it is as wide
/// as the fabric has stitches, and the gauge gives its rows as many rows.
pub open spec fn fabric_sized(img: ImageView, d: Dimensions) -> bool {
    &&& img.width == d.stitches
    &&& img.height <= u16::MAX
    &&& round_div(img.height * height_den(d), height_num(img, d)) == img.height
}

/// An image that has the size of the fabric, and in which the rows of
/// each block are alike, is resampled to itself: each stitch has the
/// colour of the pixel at its place.
pub proof fn lemma_resample_same_size(img: ImageView, d: Dimensions)
    requires
        img.wf(),
        d.wf(),
        fabric_sized(img, d),
        blocks_alike(img, d.duplicate_rows as int),
    ensures
        fabric_rows(img, d) == img.height,
        forall|x: int, y: int|
            0 <= x < img.width && 0 <= y < img.height ==> #[trigger] cell_color(img, d, x, y) == (
            img.pixel)(x, y),
{
    let h = img.height;
    let s = d.stitches as int;
    let a = height_num(img, d);
    let b = height_den(d);
    let dup = d.duplicate_rows as int;
    lemma_height_bounds(
        img.width,
        s,
        d.gauge_stitches.num as int,
        d.gauge_stitches.den as int,
        d.gauge_rows.num as int,
        d.gauge_rows.den as int,
    );
    assert(fabric_rows(img, d) == h);
    assert forall|x: int, y: int| 0 <= x < img.width && 0 <= y < h implies #[trigger] cell_color(
        img,
        d,
        x,
        y,
    ) == (img.pixel)(x, y) by {
        lemma_block_of(h, dup, y);
        let bottom = block_bottom(h, dup, y);
        let top = block_top(dup, bottom);
        let range = cell_range(img, d, x, y);
        lemma_round_whole(x, s);
        lemma_round_whole(x + 1, s);
        lemma_round_identity(h, a, b, top);
        lemma_round_identity(h, a, b, bottom + 1);
        assert(range.start_x == x);
        assert(range.end_x == x + 1);
        assert(range.start_y == top);
        assert(range.end_y == bottom + 1);
        assert forall|px: int, py: int|
            range.start_x <= px < range.end_x && range.start_y <= py < range.end_y
                implies #[trigger] (img.pixel)(px, py) == (img.pixel)(x, y) by {
            assert(block_bottom(h, dup, py) == bottom);
            assert((img.pixel)(x, py) == (img.pixel)(x, block_bottom(h, dup, py)));
            assert((img.pixel)(x, y) == (img.pixel)(x, block_bottom(h, dup, y)));
        }
        lemma_uniform_rectangle(img, range, (img.pixel)(x, y));
    }
}

/// To resample what was resampled changes nothing, where the grid has the
/// size of the fabric that is made of it.
pub proof fn lemma_resample_idempotent(img: ImageView, d: Dimensions)
    requires
        img.wf(),
        d.wf(),
        fabric_sized(grid_image(resampled(img, d)), d),
    ensures
        resampled(grid_image(resampled(img, d)), d) == resampled(img, d),
{
    let g = resampled(img, d);
    let again = grid_image(g);
    let s = d.stitches as int;
    let dup = d.duplicate_rows as int;
    assert(g.n_rows == fabric_rows(img, d));
    assert(0 <= g.n_rows <= u16::MAX) by {
        lemma_height_bounds(
            img.width,
            s,
            d.gauge_stitches.num as int,
            d.gauge_stitches.den as int,
            d.gauge_rows.num as int,
            d.gauge_rows.den as int,
        );
        if height_num(img, d) != 0 {
            assert(img.height * height_den(d) >= 0) by (nonlinear_arith)
                requires
                    img.height >= 0,
                    height_den(d) >= 1,
            ;
            crate::ratio::lemma_round_div_bounds(img.height * height_den(d), height_num(img, d));
            assert(round_div(img.height * height_den(d), height_num(img, d)) >= 0)
                by (nonlinear_arith)
                requires
                    2 * (img.height * height_den(d)) + height_num(img, d) < 2 * height_num(
                        img,
                        d,
                    ) * round_div(img.height * height_den(d), height_num(img, d)) + 2 * height_num(
                        img,
                        d,
                    ),
                    img.height * height_den(d) >= 0,
                    height_num(img, d) > 0,
            ;
        }
    }
    assert forall|x: int, y: int| 0 <= x < again.width && 0 <= y < again.height implies #[trigger] (
    again.pixel)(x, y) == cell_color(img, d, x, y) by {
        lemma_cell_index(s, g.n_rows, x, y);
    }
    assert(blocks_alike(again, dup)) by {
        assert forall|x: int, y: int|
            0 <= x < again.width && 0 <= y < again.height implies #[trigger] (again.pixel)(x, y)
            == (again.pixel)(x, block_bottom(again.height, dup, y)) by {
            lemma_block_of(g.n_rows, dup, y);
            let bottom = block_bottom(g.n_rows, dup, y);
            assert(block_bottom(g.n_rows, dup, bottom) == bottom);
            assert((again.pixel)(x, bottom) == cell_color(img, d, x, bottom));
            assert(cell_range(img, d, x, bottom) == cell_range(img, d, x, y));
        }
    }
    lemma_resample_same_size(again, d);
    let twice = resampled(again, d);
    assert(twice.n_rows == g.n_rows);
    assert forall|i: int| 0 <= i < g.colors.len() implies twice.colors[i] == g.colors[i] by {
        lemma_cell_of_index(s, g.n_rows, i);
        let x = i % s;
        let y = i / s;
        assert(cell_color(again, d, x, y) == (again.pixel)(x, y));
    }
    assert(twice.colors =~= g.colors);
}

/// The bounds within which the row height is computed.
proof fn lemma_height_bounds(w: int, s: int, gs_num: int, gs_den: int, gr_num: int, gr_den: int)
    requires
        0 <= w <= u32::MAX,
        1 <= s <= u16::MAX,
        1 <= gs_num <= u32::MAX,
        1 <= gs_den <= u32::MAX,
        1 <= gr_num <= u32::MAX,
        1 <= gr_den <= u32::MAX,
    ensures
        0 <= w * gs_num <= 0xffff_ffff * 0xffff_ffff,
        0 <= w * gs_num * gr_den <= 0xffff_ffff * 0xffff_ffff * 0xffff_ffff,
        1 <= s * gs_den <= 0xffff * 0xffff_ffff,
        1 <= s * gs_den * gr_num <= 0xffff * 0xffff_ffff * 0xffff_ffff,
        w > 0 ==> w * gs_num * gr_den > 0,
{
    assert(0 <= w * gs_num <= 0xffff_ffff * 0xffff_ffff) by (nonlinear_arith)
        requires
            0 <= w <= 0xffff_ffff,
            1 <= gs_num <= 0xffff_ffff,
    ;
    let wg = w * gs_num;
    assert(0 <= wg * gr_den <= 0xffff_ffff * 0xffff_ffff * 0xffff_ffff) by (nonlinear_arith)
        requires
            0 <= wg <= 0xffff_ffff * 0xffff_ffff,
            1 <= gr_den <= 0xffff_ffff,
    ;
    assert(1 <= s * gs_den <= 0xffff * 0xffff_ffff) by (nonlinear_arith)
        requires
            1 <= s <= 0xffff,
            1 <= gs_den <= 0xffff_ffff,
    ;
    let sg = s * gs_den;
    assert(1 <= sg * gr_num <= 0xffff * 0xffff_ffff * 0xffff_ffff) by (nonlinear_arith)
        requires
            1 <= sg <= 0xffff * 0xffff_ffff,
            1 <= gr_num <= 0xffff_ffff,
    ;
    if w > 0 {
        assert(wg * gr_den > 0) by (nonlinear_arith)
            requires
                wg == w * gs_num,
                w > 0,
                gs_num >= 1,
                gr_den >= 1,
        ;
    }
}

/// `k * a / b`, rounded and no more than `limit`, for the numbers that
/// occur when a fabric is laid over an image.
fn edge_at(k: u32, a: u128, b: u128, limit: u32) -> (r: u32)
    requires
        k <= 0x1_0000,
        a <= 0xffff_ffff * 0xffff_ffff * 0xffff_ffff,
        0 < b <= 0xffff * 0xffff_ffff * 0xffff_ffff,
    ensures
        r == clamped_round(k * a, b as int, limit as int),
{
    assert(k * a <= 0x1_0000 * (0xffff_ffff * 0xffff_ffff * 0xffff_ffff)) by (nonlinear_arith)
        requires
            0 <= k <= 0x1_0000,
            0 <= a <= 0xffff_ffff * 0xffff_ffff * 0xffff_ffff,
    ;
    clamped_round_u128(k as u128 * a, b, limit)
}

impl Grid {
    /// The number of places.
    pub fn len(&self) -> (n: usize)
        ensures
            n == self.n_rows * self.n_stitches,
    {
        assert(self.n_rows * self.n_stitches <= 0xffff * 0xffff) by (nonlinear_arith)
            requires
                self.n_rows <= 0xffff,
                self.n_stitches <= 0xffff,
        ;
        self.n_rows as usize * self.n_stitches as usize
    }

    /// The index of the place `(x, y)` in `colors`.
    pub fn offset(&self, x: u16, y: u16) -> (i: usize)
        requires
            self@.contains(x as int, y as int),
        ensures
            i == cell_index(self.n_stitches as int, x as int, y as int),
            i < self.n_rows * self.n_stitches,
    {
        proof {
            lemma_cell_index(self.n_stitches as int, self.n_rows as int, x as int, y as int);
            assert(self.n_rows * self.n_stitches <= 0xffff * 0xffff) by (nonlinear_arith)
                requires
                    self.n_rows <= 0xffff,
                    self.n_stitches <= 0xffff,
            ;
            assert(y * self.n_stitches >= 0) by (nonlinear_arith)
                requires
                    y >= 0,
                    self.n_stitches >= 0,
            ;
        }
        y as usize * self.n_stitches as usize + x as usize
    }

    /// The colour at column `x` of row `y`.
    pub fn get(&self, x: u16, y: u16) -> (color: Option<Color>)
        requires
            self@.wf(),
            self@.contains(x as int, y as int),
        ensures
            color == self@.at(x as int, y as int),
    {
        let i = self.offset(x, y);
        self.colors[i]
    }

    /// Lays a fabric of `dimensions.stitches` stitches over the image and
    /// gives each stitch the colour that occurs most often among its pixels.
    pub fn resample<I: Image>(image: &I, dimensions: &Dimensions) -> (grid: Grid)
        requires
            dimensions.wf(),
        ensures
            grid@ == resampled(image_view(image), *dimensions),
            grid@.wf(),
    {
        let ghost img = image_view(image);
        let ghost d = *dimensions;
        let width = image.width();
        let height = image.height();
        let stitches = dimensions.stitches;
        let duplicate_rows = dimensions.duplicate_rows;
        proof {
            lemma_height_bounds(
                width as int,
                stitches as int,
                d.gauge_stitches.num as int,
                d.gauge_stitches.den as int,
                d.gauge_rows.num as int,
                d.gauge_rows.den as int,
            );
        }
        let a: u128 = width as u128 * dimensions.gauge_stitches.num as u128
            * dimensions.gauge_rows.den as u128;
        let b: u128 = stitches as u128 * dimensions.gauge_stitches.den as u128
            * dimensions.gauge_rows.num as u128;
        assert(a == height_num(img, d));
        assert(b == height_den(d));
        let n_rows: u16 = if a == 0 {
            if height == 0 {
                0
            } else {
                u16::MAX
            }
        } else {
            assert(height * b <= 0xffff_ffff * (0xffff * 0xffff_ffff * 0xffff_ffff))
                by (nonlinear_arith)
                requires
                    0 <= height <= 0xffff_ffff,
                    0 <= b <= 0xffff * 0xffff_ffff * 0xffff_ffff,
            ;
            let rows = clamped_round_u128(height as u128 * b, a, 0xffff);
            rows as u16
        };
        assert(n_rows == fabric_rows(img, d));
        let mut grid = Grid { colors: Vec::new(), n_stitches: stitches, n_rows };
        let total = grid.len();
        let mut filled: usize = 0;
        while filled < total
            invariant
                filled <= total,
                grid.colors@.len() == filled,
                grid.n_stitches == stitches,
                grid.n_rows == n_rows,
            decreases total - filled,
        {
            grid.colors.push(None);
            filled = filled + 1;
        }
        let mut bottom: u16 = n_rows;
        let ghost mut block: int = 0;
        while bottom > 0
            invariant
                img == image_view(image),
                d == *dimensions,
                d.wf(),
                width == img.width,
                height == img.height,
                stitches == d.stitches,
                duplicate_rows == d.duplicate_rows,
                a == height_num(img, d),
                b == height_den(d),
                a <= 0xffff_ffff * 0xffff_ffff * 0xffff_ffff,
                0 < b <= 0xffff * 0xffff_ffff * 0xffff_ffff,
                n_rows == fabric_rows(img, d),
                grid.n_stitches == stitches,
                grid.n_rows == n_rows,
                grid.colors@.len() == n_rows * stitches,
                total == n_rows * stitches,
                bottom <= n_rows,
                block >= 0,
                bottom > 0 ==> bottom == n_rows - block * duplicate_rows,
                forall|x: int, y: int|
                    0 <= x < stitches && bottom <= y < n_rows ==> grid.colors@[#[trigger] cell_index(
                        stitches as int,
                        x,
                        y,
                    )] == cell_color(img, d, x, y),
            decreases bottom,
        {
            let y: u16 = bottom - 1;
            let top: u16 = if y >= duplicate_rows - 1 {
                y - (duplicate_rows - 1)
            } else {
                0
            };
            let start_y = edge_at(top as u32, a, b, u32::MAX);
            let end_y = edge_at(y as u32 + 1, a, b, height);
            proof {
                assert forall|row: int| top <= row <= y implies block_bottom(
                    n_rows as int,
                    duplicate_rows as int,
                    row,
                ) == y by {
                    lemma_block_bottom(n_rows as int, duplicate_rows as int, block, y - row);
                }
            }
            let mut x: u16 = 0;
            while x < stitches
                invariant
                    img == image_view(image),
                    d == *dimensions,
                    d.wf(),
                    width == img.width,
                    height == img.height,
                    stitches == d.stitches,
                    duplicate_rows == d.duplicate_rows,
                    n_rows == fabric_rows(img, d),
                    grid.n_stitches == stitches,
                    grid.n_rows == n_rows,
                    grid.colors@.len() == n_rows * stitches,
                    x <= stitches,
                    y == bottom - 1,
                    0 < bottom <= n_rows,
                    top == block_top(duplicate_rows as int, y as int),
                    block_bottom(n_rows as int, duplicate_rows as int, y as int) == y,
                    start_y == clamped_round(top * height_num(img, d), height_den(d), u32::MAX as int),
                    end_y == clamped_round((y + 1) * height_num(img, d), height_den(d), img.height),
                    forall|cx: int, cy: int|
                        0 <= cx < stitches && bottom <= cy < n_rows ==> grid.colors@[#[trigger] cell_index(
                            stitches as int,
                            cx,
                            cy,
                        )] == cell_color(img, d, cx, cy),
                    forall|cx: int|
                        0 <= cx < x ==> grid.colors@[#[trigger] cell_index(
                            stitches as int,
                            cx,
                            y as int,
                        )] == cell_color(img, d, cx, y as int),
                decreases stitches - x,
            {
                assert(x * width <= 0xffff * 0xffff_ffff && (x + 1) * width <= 0x1_0000
                    * 0xffff_ffff) by (nonlinear_arith)
                    requires
                        0 <= x < 0xffff,
                        0 <= width <= 0xffff_ffff,
                ;
                let start_x = clamped_round_u128(
                    x as u128 * width as u128,
                    stitches as u128,
                    u32::MAX,
                );
                let end_x = clamped_round_u128(
                    (x as u128 + 1) * width as u128,
                    stitches as u128,
                    width,
                );
                assert((SampleRange { start_x, end_x, start_y, end_y }) == cell_range(
                    img,
                    d,
                    x as int,
                    y as int,
                ));
                let color = most_popular_color(image, start_x, end_x, start_y, end_y);
                let i = grid.offset(x, y);
                let ghost before = grid.colors@;
                grid.colors.set(i, color);
                proof {
                    assert forall|cx: int, cy: int|
                        0 <= cx < stitches && bottom <= cy < n_rows implies grid.colors@[#[trigger] cell_index(
                            stitches as int,
                            cx,
                            cy,
                        )] == cell_color(img, d, cx, cy) by {
                        lemma_cell_index(stitches as int, n_rows as int, cx, cy);
                        lemma_cell_index(stitches as int, n_rows as int, x as int, y as int);
                    }
                    assert forall|cx: int| 0 <= cx < x + 1 implies grid.colors@[#[trigger] cell_index(
                        stitches as int,
                        cx,
                        y as int,
                    )] == cell_color(img, d, cx, y as int) by {
                        lemma_cell_index(stitches as int, n_rows as int, cx, y as int);
                        lemma_cell_index(stitches as int, n_rows as int, x as int, y as int);
                    }
                }
                x = x + 1;
            }
            let mut row: u16 = y;
            while row > top
                invariant
                    img == image_view(image),
                    d == *dimensions,
                    stitches == d.stitches,
                    duplicate_rows == d.duplicate_rows,
                    n_rows == fabric_rows(img, d),
                    grid.n_stitches == stitches,
                    grid.n_rows == n_rows,
                    grid.colors@.len() == n_rows * stitches,
                    y == bottom - 1,
                    0 < bottom <= n_rows,
                    top <= row <= y,
                    forall|r: int|
                        top <= r <= y ==> block_bottom(n_rows as int, duplicate_rows as int, r)
                            == y,
                    forall|cx: int, cy: int|
                        0 <= cx < stitches && row <= cy < n_rows ==> grid.colors@[#[trigger] cell_index(
                            stitches as int,
                            cx,
                            cy,
                        )] == cell_color(img, d, cx, cy),
                decreases row,
            {
                let target: u16 = row - 1;
                let mut cx: u16 = 0;
                while cx < stitches
                    invariant
                        img == image_view(image),
                        d == *dimensions,
                        stitches == d.stitches,
                        duplicate_rows == d.duplicate_rows,
                        n_rows == fabric_rows(img, d),
                        grid.n_stitches == stitches,
                        grid.n_rows == n_rows,
                        grid.colors@.len() == n_rows * stitches,
                        y == bottom - 1,
                        0 < bottom <= n_rows,
                        top <= target < row <= y,
                        target == row - 1,
                        cx <= stitches,
                        block_bottom(n_rows as int, duplicate_rows as int, target as int) == y,
                        block_bottom(n_rows as int, duplicate_rows as int, y as int) == y,
                        forall|ax: int, ay: int|
                            0 <= ax < stitches && row <= ay < n_rows ==> grid.colors@[#[trigger] cell_index(
                                stitches as int,
                                ax,
                                ay,
                            )] == cell_color(img, d, ax, ay),
                        forall|ax: int|
                            0 <= ax < cx ==> grid.colors@[#[trigger] cell_index(
                                stitches as int,
                                ax,
                                target as int,
                            )] == cell_color(img, d, ax, target as int),
                    decreases stitches - cx,
                {
                    let from = grid.offset(cx, y);
                    let to = grid.offset(cx, target);
                    let color = grid.colors[from];
                    assert(color == cell_color(img, d, cx as int, y as int));
                    assert(cell_range(img, d, cx as int, target as int) == cell_range(
                        img,
                        d,
                        cx as int,
                        y as int,
                    ));
                    grid.colors.set(to, color);
                    proof {
                        assert forall|ax: int, ay: int|
                            0 <= ax < stitches && row <= ay < n_rows implies grid.colors@[#[trigger] cell_index(
                                stitches as int,
                                ax,
                                ay,
                            )] == cell_color(img, d, ax, ay) by {
                            lemma_cell_index(stitches as int, n_rows as int, ax, ay);
                            lemma_cell_index(
                                stitches as int,
                                n_rows as int,
                                cx as int,
                                target as int,
                            );
                        }
                        assert forall|ax: int| 0 <= ax < cx + 1 implies grid.colors@[#[trigger] cell_index(
                            stitches as int,
                            ax,
                            target as int,
                        )] == cell_color(img, d, ax, target as int) by {
                            lemma_cell_index(stitches as int, n_rows as int, ax, target as int);
                            lemma_cell_index(
                                stitches as int,
                                n_rows as int,
                                cx as int,
                                target as int,
                            );
                        }
                    }
                    cx = cx + 1;
                }
                row = target;
            }
            proof {
                block = block + 1;
                if top > 0 {
                    assert(top == n_rows - block * duplicate_rows) by (nonlinear_arith)
                        requires
                            top == y - (duplicate_rows - 1),
                            y == n_rows - (block - 1) * duplicate_rows - 1,
                    ;
                }
            }
            bottom = top;
        }
        proof {
            let target = resampled(img, d);
            assert(grid@.colors.len() == target.colors.len());
            assert forall|i: int| 0 <= i < grid@.colors.len() implies grid@.colors[i]
                == target.colors[i] by {
                lemma_cell_of_index(stitches as int, n_rows as int, i);
                let x = i % (stitches as int);
                let y = i / (stitches as int);
                assert(grid.colors@[cell_index(stitches as int, x, y)] == cell_color(img, d, x, y));
            }
            assert(grid@.colors =~= target.colors);
        }
        grid
    }
}

} // verus!
