use crate::ratio::{scaled, scaled_up_to, Ratio};
use crate::stitch_image::{
    image_view, key_of, key_pixel, lemma_pixel_key, pixel_of, Color, Image, ImageView, ABSENT_KEY,
};
use std::collections::HashMap;
use vstd::prelude::*;

verus! {

/// The rectangle of pixels that one stitch covers: the columns
/// `start_x <= x < end_x` of the rows `start_y <= y < end_y`.
#[derive(Clone, Copy, Debug)]
pub struct SampleRange {
    pub start_x: u32,
    pub end_x: u32,
    pub start_y: u32,
    pub end_y: u32,
}

/// The part of its rectangle that a sample looks at.
#[derive(Clone, Copy, Debug)]
pub enum Shape {
    /// All of it.
    Rectangle,
    /// The triangle below the diagonal from the top left to the bottom right.
    LowerLeft,
    /// The triangle above that diagonal.
    UpperRight,
}

impl SampleRange {
    /// The number of columns.
    pub open spec fn width(self) -> int {
        if self.end_x > self.start_x {
            self.end_x - self.start_x
        } else {
            0
        }
    }

    /// The number of rows.
    pub open spec fn height(self) -> int {
        if self.end_y > self.start_y {
            self.end_y - self.start_y
        } else {
            0
        }
    }

    /// The length of a triangle's row: `part / height` of the width,
    /// rounded to the nearest pixel.
    pub open spec fn row_length(self, part: int) -> int {
        (part * self.width() + self.height() / 2) / self.height()
    }

    /// The columns `span.0 <= x < span.1` that the shape covers in row `y`.
    pub open spec fn span(self, shape: Shape, y: int) -> (int, int) {
        let left = self.start_x as int;
        let right = self.start_x + self.width();
        match shape {
            Shape::Rectangle => (left, right),
            Shape::LowerLeft => (left, left + self.row_length(y + 1 - self.start_y)),
            Shape::UpperRight => (
                right - self.row_length(self.height() + self.start_y - y),
                right,
            ),
        }
    }

    /// The rectangle lies inside the image.
    pub open spec fn within(self, img: ImageView) -> bool {
        self.end_x <= img.width && self.end_y <= img.height
    }
}

/// The number of pixels with the key `key` in row `y`, columns `x0 <= x < x1`.
pub open spec fn row_count(img: ImageView, y: int, x0: int, x1: int, key: int) -> nat
    decreases x1 - x0,
{
    if x1 <= x0 {
        0
    } else {
        row_count(img, y, x0, x1 - 1, key) + if img.key(x1 - 1, y) == key {
            1nat
        } else {
            0nat
        }
    }
}

/// The number of pixels with the key `key` that the shape covers in the
/// rows above `y_end`.
pub open spec fn span_count(
    img: ImageView,
    range: SampleRange,
    shape: Shape,
    y_end: int,
    key: int,
) -> nat
    decreases y_end - range.start_y,
{
    if y_end <= range.start_y {
        0
    } else {
        let span = range.span(shape, y_end - 1);
        span_count(img, range, shape, y_end - 1, key) + row_count(
            img,
            y_end - 1,
            span.0,
            span.1,
            key,
        )
    }
}

/// The number of pixels with the key `key` in the rows above `y` and in the
/// columns of row `y` to the left of `x`.
pub open spec fn partial_count(
    img: ImageView,
    range: SampleRange,
    shape: Shape,
    y: int,
    x: int,
    key: int,
) -> nat {
    span_count(img, range, shape, y, key) + row_count(img, y, range.span(shape, y).0, x, key)
}

/// The number of pixels with the key `key` that the shape covers.
pub open spec fn footprint_count(img: ImageView, range: SampleRange, shape: Shape, key: int) -> nat {
    span_count(img, range, shape, range.start_y + range.height(), key)
}

/// `key` occurs most often among the pixels that the shape covers. Of two
/// keys that occur equally often the smaller one wins: an absent pixel
/// loses to every colour, and of two colours the one that comes first by
/// red, then green, then blue wins. An empty shape has `ABSENT_KEY`.
pub open spec fn is_plurality(img: ImageView, range: SampleRange, shape: Shape, key: int) -> bool {
    &&& 0 <= key <= ABSENT_KEY
    &&& if footprint_count(img, range, shape, key) == 0 {
        &&& key == ABSENT_KEY
        &&& forall|k: int|
            0 <= k <= ABSENT_KEY ==> #[trigger] footprint_count(img, range, shape, k) == 0
    } else {
        forall|k: int|
            0 <= k <= ABSENT_KEY ==> {
                let n = #[trigger] footprint_count(img, range, shape, k);
                let best = footprint_count(img, range, shape, key);
                n < best || (n == best && key <= k)
            }
    }
}

/// The key that occurs most often among the pixels that the shape covers.
pub open spec fn plurality_key(img: ImageView, range: SampleRange, shape: Shape) -> int {
    choose|key: int| is_plurality(img, range, shape, key)
}

/// The pixel that occurs most often among those that the shape covers;
/// `None` where it covers no pixel.
pub open spec fn plurality(img: ImageView, range: SampleRange, shape: Shape) -> Option<Color> {
    key_pixel(plurality_key(img, range, shape))
}

/// Only one key is the plurality of a shape.
pub proof fn lemma_plurality_unique(img: ImageView, range: SampleRange, shape: Shape, key: int)
    requires
        is_plurality(img, range, shape, key),
    ensures
        plurality_key(img, range, shape) == key,
{
    let other = plurality_key(img, range, shape);
    assert(is_plurality(img, range, shape, other));
    let n = footprint_count(img, range, shape, key);
    let m = footprint_count(img, range, shape, other);
    if n == 0 {
        assert(m == 0);
    } else if m == 0 {
        assert(n == 0);
    } else {
        assert(m < n || (m == n && key <= other));
        assert(n < m || (n == m && other <= key));
    }
}

/// A row holds no more pixels of one key than it has columns.
pub proof fn lemma_row_count_bound(img: ImageView, y: int, x0: int, x1: int, key: int)
    requires
        x0 <= x1,
    ensures
        row_count(img, y, x0, x1, key) <= x1 - x0,
    decreases x1 - x0,
{
    if x1 > x0 {
        lemma_row_count_bound(img, y, x0, x1 - 1, key);
    }
}

/// A row in which every pixel has the key `key` holds nothing else.
pub proof fn lemma_row_count_uniform(img: ImageView, y: int, x0: int, x1: int, key: int, k: int)
    requires
        x0 <= x1,
        forall|x: int| x0 <= x < x1 ==> #[trigger] img.key(x, y) == key,
    ensures
        row_count(img, y, x0, x1, k) == if k == key {
            x1 - x0
        } else {
            0
        },
    decreases x1 - x0,
{
    if x1 > x0 {
        lemma_row_count_uniform(img, y, x0, x1 - 1, key, k);
        assert(img.key(x1 - 1, y) == key);
    }
}

/// The row of a triangle is no longer than the rectangle is wide.
pub proof fn lemma_row_length(range: SampleRange, part: int)
    requires
        0 <= part <= range.height(),
        range.height() > 0,
    ensures
        0 <= range.row_length(part) <= range.width(),
{
    let w = range.width();
    let h = range.height();
    assert(0 <= (part * w + h / 2) / h <= w) by (nonlinear_arith)
        requires
            0 <= part <= h,
            h > 0,
            w >= 0,
    ;
}

/// In each of its rows a shape stays inside its rectangle.
pub proof fn lemma_span(range: SampleRange, shape: Shape, y: int)
    requires
        range.start_y <= y < range.end_y,
    ensures
        range.start_x <= range.span(shape, y).0 <= range.span(shape, y).1 <= range.start_x
            + range.width(),
{
    lemma_row_length(range, y + 1 - range.start_y);
    lemma_row_length(range, range.height() + range.start_y - y);
}

/// The rows above `y_end` hold no more pixels of one key than the
/// rectangle has in those rows.
pub proof fn lemma_span_count_bound(
    img: ImageView,
    range: SampleRange,
    shape: Shape,
    y_end: int,
    key: int,
)
    requires
        range.start_y <= y_end <= range.end_y,
    ensures
        span_count(img, range, shape, y_end, key) <= (y_end - range.start_y) * range.width(),
    decreases y_end - range.start_y,
{
    if y_end > range.start_y {
        let span = range.span(shape, y_end - 1);
        lemma_span_count_bound(img, range, shape, y_end - 1, key);
        lemma_span(range, shape, y_end - 1);
        lemma_row_count_bound(img, y_end - 1, span.0, span.1, key);
        let w = range.width();
        let d = y_end - range.start_y;
        assert((d - 1) * w + w == d * w) by (nonlinear_arith);
    } else {
        assert(0 * range.width() == 0);
    }
}

/// A shape without columns covers no pixel.
pub proof fn lemma_empty_width(
    img: ImageView,
    range: SampleRange,
    shape: Shape,
    y_end: int,
    key: int,
)
    requires
        range.width() == 0,
        range.start_y <= y_end <= range.end_y,
    ensures
        span_count(img, range, shape, y_end, key) == 0,
{
    lemma_span_count_bound(img, range, shape, y_end, key);
    assert((y_end - range.start_y) * 0 == 0);
}

/// A shape whose pixels all have one key, and which covers at least one
/// pixel, has that key as its plurality.
pub proof fn lemma_uniform_plurality(img: ImageView, range: SampleRange, shape: Shape, key: int)
    requires
        0 <= key <= ABSENT_KEY,
        footprint_count(img, range, shape, key) > 0,
        forall|k: int|
            0 <= k <= ABSENT_KEY && k != key ==> #[trigger] footprint_count(img, range, shape, k)
                == 0,
    ensures
        plurality_key(img, range, shape) == key,
{
    assert(is_plurality(img, range, shape, key)) by {
        assert forall|k: int| 0 <= k <= ABSENT_KEY implies {
            let n = #[trigger] footprint_count(img, range, shape, k);
            let best = footprint_count(img, range, shape, key);
            n < best || (n == best && key <= k)
        } by {}
    }
    lemma_plurality_unique(img, range, shape, key);
}

/// A rectangle whose pixels all have one key has only that key in the
/// rows above `y_end`.
pub proof fn lemma_uniform_rows(img: ImageView, range: SampleRange, y_end: int, key: int, k: int)
    requires
        range.start_y <= y_end <= range.end_y,
        forall|x: int, y: int|
            range.start_x <= x < range.end_x && range.start_y <= y < range.end_y
                ==> #[trigger] img.key(x, y) == key,
    ensures
        span_count(img, range, Shape::Rectangle, y_end, k) == if k == key {
            (y_end - range.start_y) * range.width()
        } else {
            0
        },
    decreases y_end - range.start_y,
{
    let d = y_end - range.start_y;
    let w = range.width();
    if y_end > range.start_y {
        lemma_uniform_rows(img, range, y_end - 1, key, k);
        let span = range.span(Shape::Rectangle, y_end - 1);
        assert forall|x: int| span.0 <= x < span.1 implies #[trigger] img.key(x, y_end - 1)
            == key by {}
        lemma_row_count_uniform(img, y_end - 1, span.0, span.1, key, k);
        assert((d - 1) * w + w == d * w) by (nonlinear_arith);
    } else {
        assert(0 * w == 0);
    }
}

/// A rectangle that is not empty and whose pixels are all the same has
/// that pixel as its plurality.
pub proof fn lemma_uniform_rectangle(img: ImageView, range: SampleRange, p: Option<Color>)
    requires
        range.start_x < range.end_x,
        range.start_y < range.end_y,
        forall|x: int, y: int|
            range.start_x <= x < range.end_x && range.start_y <= y < range.end_y ==> #[trigger] (
            img.pixel)(x, y) == p,
    ensures
        plurality(img, range, Shape::Rectangle) == p,
{
    let key = crate::stitch_image::pixel_key(p);
    lemma_pixel_key(p);
    assert forall|x: int, y: int|
        range.start_x <= x < range.end_x && range.start_y <= y < range.end_y
            implies #[trigger] img.key(x, y) == key by {
        assert((img.pixel)(x, y) == p);
    }
    assert forall|k: int| 0 <= k <= ABSENT_KEY && k != key implies #[trigger] footprint_count(
        img,
        range,
        Shape::Rectangle,
        k,
    ) == 0 by {
        lemma_uniform_rows(img, range, range.end_y as int, key, k);
    }
    lemma_uniform_rows(img, range, range.end_y as int, key, key);
    assert(range.height() * range.width() > 0) by (nonlinear_arith)
        requires
            range.height() > 0,
            range.width() > 0,
    ;
    lemma_uniform_plurality(img, range, Shape::Rectangle, key);
}

/// The count that a map holds for a key: zero for a key that it lacks.
pub open spec fn count_in(counts: Map<u32, u64>, key: u32) -> nat {
    if counts.contains_key(key) {
        counts[key] as nat
    } else {
        0
    }
}

/// `key` leads the count of the pixels above row `y` and left of `x` in it.
pub open spec fn leads(
    img: ImageView,
    range: SampleRange,
    shape: Shape,
    y: int,
    x: int,
    key: int,
) -> bool {
    &&& 0 <= key <= ABSENT_KEY
    &&& if partial_count(img, range, shape, y, x, key) == 0 {
        &&& key == ABSENT_KEY
        &&& forall|k: int|
            0 <= k <= ABSENT_KEY ==> #[trigger] partial_count(img, range, shape, y, x, k) == 0
    } else {
        forall|k: int|
            0 <= k <= ABSENT_KEY ==> {
                let n = #[trigger] partial_count(img, range, shape, y, x, k);
                let best = partial_count(img, range, shape, y, x, key);
                n < best || (n == best && key <= k)
            }
    }
}

/// The pixel that occurs most often among those that `shape` covers in
/// `range`. Where two occur equally often, see `is_plurality`.
pub fn most_popular<I: Image>(image: &I, range: SampleRange, shape: Shape) -> (p: Option<Color>)
    requires
        range.within(image_view(image)),
    ensures
        p == plurality(image_view(image), range, shape),
{
    broadcast use vstd::std_specs::hash::group_hash_axioms;

    let ghost img = image_view(image);
    if range.end_y <= range.start_y || range.end_x <= range.start_x {
        proof {
            assert forall|k: int| 0 <= k <= ABSENT_KEY implies #[trigger] footprint_count(
                img,
                range,
                shape,
                k,
            ) == 0 by {
                if range.end_y > range.start_y {
                    lemma_empty_width(img, range, shape, range.end_y as int, k);
                }
            }
            lemma_plurality_unique(img, range, shape, ABSENT_KEY as int);
        }
        return None;
    }
    let width: u32 = range.end_x - range.start_x;
    let height: u32 = range.end_y - range.start_y;
    let mut counts: HashMap<u32, u64> = HashMap::new();
    let mut best_key: u32 = ABSENT_KEY;
    let mut best_count: u64 = 0;
    let mut y: u32 = range.start_y;
    while y < range.end_y
        invariant
            img == image_view(image),
            range.within(img),
            range.start_y <= y <= range.end_y,
            range.start_x < range.end_x,
            width == range.width(),
            height == range.height(),
            forall|k: u32| #[trigger]
                count_in(counts@, k) == span_count(img, range, shape, y as int, k as int),
            leads(img, range, shape, y as int, range.span(shape, y as int).0, best_key as int),
            best_count == span_count(img, range, shape, y as int, best_key as int),
        decreases range.end_y - y,
    {
        proof {
            lemma_span(range, shape, y as int);
            lemma_row_length(range, y + 1 - range.start_y);
            lemma_row_length(range, range.height() + range.start_y - y);
            assert((y + 1 - range.start_y) * width <= 0xffff_ffff * 0xffff_ffff)
                by (nonlinear_arith)
                requires
                    0 <= y + 1 - range.start_y <= 0xffff_ffff,
                    0 <= width <= 0xffff_ffff,
            ;
            assert((height + range.start_y - y) * width <= 0xffff_ffff * 0xffff_ffff)
                by (nonlinear_arith)
                requires
                    0 <= height + range.start_y - y <= 0xffff_ffff,
                    0 <= width <= 0xffff_ffff,
            ;
        }
        let (first, last): (u32, u32) = match shape {
            Shape::Rectangle => (range.start_x, range.end_x),
            Shape::LowerLeft => {
                let part: u64 = (y - range.start_y) as u64 + 1;
                let row_length: u64 = (part * (width as u64) + (height / 2) as u64) / (
                height as u64);
                (range.start_x, range.start_x + row_length as u32)
            },
            Shape::UpperRight => {
                let part: u64 = (height - (y - range.start_y)) as u64;
                let row_length: u64 = (part * (width as u64) + (height / 2) as u64) / (
                height as u64);
                (range.end_x - row_length as u32, range.end_x)
            },
        };
        assert(first == range.span(shape, y as int).0);
        assert(last == range.span(shape, y as int).1);
        let mut x: u32 = first;
        while x < last
            invariant
                img == image_view(image),
                range.within(img),
                range.start_y <= y < range.end_y,
                range.start_x <= first <= x <= last <= range.end_x,
                first == range.span(shape, y as int).0,
                last == range.span(shape, y as int).1,
                width == range.width(),
                height == range.height(),
                forall|k: u32| #[trigger]
                    count_in(counts@, k) == partial_count(
                        img,
                        range,
                        shape,
                        y as int,
                        x as int,
                        k as int,
                    ),
                leads(img, range, shape, y as int, x as int, best_key as int),
                best_count == partial_count(
                    img,
                    range,
                    shape,
                    y as int,
                    x as int,
                    best_key as int,
                ),
            decreases last - x,
        {
            let pixel = image.get_pixel(x, y);
            let key = key_of(&pixel);
            proof {
                lemma_pixel_key(pixel);
                lemma_span_count_bound(img, range, shape, y as int, key as int);
                lemma_row_count_bound(img, y as int, first as int, x as int, key as int);
                assert((y - range.start_y) * width + width <= 0xffff_ffff * 0xffff_ffff)
                    by (nonlinear_arith)
                    requires
                        0 <= y - range.start_y < 0xffff_ffff,
                        0 <= width <= 0xffff_ffff,
                ;
                assert(count_in(counts@, key) == partial_count(
                    img,
                    range,
                    shape,
                    y as int,
                    x as int,
                    key as int,
                ));
            }
            let count: u64 = match counts.get(&key) {
                Some(n) => *n + 1,
                None => 1,
            };
            let ghost before = counts@;
            counts.insert(key, count);
            proof {
                assert(img.key(x as int, y as int) == key);
                assert forall|k: int| 0 <= k <= ABSENT_KEY implies #[trigger] partial_count(
                    img,
                    range,
                    shape,
                    y as int,
                    x + 1,
                    k,
                ) == partial_count(img, range, shape, y as int, x as int, k) + if k == key {
                    1nat
                } else {
                    0nat
                } by {}
                assert forall|k: u32| #[trigger]
                    count_in(counts@, k) == partial_count(
                        img,
                        range,
                        shape,
                        y as int,
                        x + 1,
                        k as int,
                    ) by {
                    assert(count_in(before, k) == partial_count(
                        img,
                        range,
                        shape,
                        y as int,
                        x as int,
                        k as int,
                    ));
                    if k > ABSENT_KEY {
                        assert(img.key(x as int, y as int) != k);
                    }
                }
            }
            if count > best_count || (count == best_count && key < best_key) {
                best_key = key;
                best_count = count;
            }
            x = x + 1;
        }
        y = y + 1;
        proof {
            let next = range.span(shape, y as int).0;
            assert forall|k: int| 0 <= k <= ABSENT_KEY implies #[trigger] partial_count(
                img,
                range,
                shape,
                y as int,
                next,
                k,
            ) == partial_count(img, range, shape, y - 1, last as int, k) by {}
            assert forall|k: u32| #[trigger]
                count_in(counts@, k) == span_count(img, range, shape, y as int, k as int) by {
                assert(count_in(counts@, k) == partial_count(
                    img,
                    range,
                    shape,
                    y - 1,
                    last as int,
                    k as int,
                ));
            }
        }
    }
    proof {
        let first = range.span(shape, y as int).0;
        assert forall|k: int| 0 <= k <= ABSENT_KEY implies #[trigger] footprint_count(
            img,
            range,
            shape,
            k,
        ) == partial_count(img, range, shape, y as int, first, k) by {}
        assert(is_plurality(img, range, shape, best_key as int));
        lemma_plurality_unique(img, range, shape, best_key as int);
    }
    pixel_of(best_key)
}

/// The pixel that occurs most often in the columns `start_x <= x < end_x`
/// of the rows `start_y <= y < end_y`.
pub fn most_popular_color<I: Image>(image: &I, start_x: u32, end_x: u32, start_y: u32, end_y: u32)
    -> (p: Option<Color>)
    requires
        end_x <= image.spec_width(),
        end_y <= image.spec_height(),
    ensures
        p == plurality(
            image_view(image),
            SampleRange { start_x, end_x, start_y, end_y },
            Shape::Rectangle,
        ),
{
    most_popular(image, SampleRange { start_x, end_x, start_y, end_y }, Shape::Rectangle)
}

/// Reads an image in samples: one for each stitch, `sample_width` pixels
/// wide and `sample_height` pixels high.
pub struct Sampler<'a, I: Image> {
    image: &'a I,
    sample_width: Ratio,
    sample_height: Ratio,
}

/// The rectangle of the stitches `x`, `y <= row < y + row_height`, in an
/// image that is read in samples of `sample_width` by `sample_height`
/// pixels. Its edges are rounded to whole pixels and it ends where the
/// image ends.
pub open spec fn sample_range_of(
    img: ImageView,
    sample_width: Ratio,
    sample_height: Ratio,
    x: int,
    y: int,
    row_height: int,
) -> SampleRange {
    SampleRange {
        start_x: edge(x, sample_width, u32::MAX as int),
        end_x: edge(x + 1, sample_width, img.width),
        start_y: edge(y, sample_height, u32::MAX as int),
        end_y: edge(y + row_height, sample_height, img.height),
    }
}

/// The pixel at which the stitch `k` begins, and no more than `limit`.
pub open spec fn edge(k: int, size: Ratio, limit: int) -> u32 {
    if scaled(k, size) < limit {
        scaled(k, size) as u32
    } else {
        limit as u32
    }
}

impl<'a, I: Image> Sampler<'a, I> {
    #[verifier::type_invariant]
    spec fn inv(self) -> bool {
        self.sample_width.wf() && self.sample_height.wf()
    }

    /// The image that is sampled.
    pub closed spec fn image(&self) -> ImageView {
        image_view(self.image)
    }

    /// The number of pixels in a stitch's width.
    pub closed spec fn sample_width(&self) -> Ratio {
        self.sample_width
    }

    /// The number of pixels in a stitch's height.
    pub closed spec fn sample_height(&self) -> Ratio {
        self.sample_height
    }

    /// The rectangle of the stitches `x`, `y <= row < y + row_height`.
    pub open spec fn range(&self, x: int, y: int, row_height: int) -> SampleRange {
        sample_range_of(self.image(), self.sample_width(), self.sample_height(), x, y, row_height)
    }

    /// A sampler of `image` with samples of the given size.
    pub fn new(image: &'a I, sample_width: Ratio, sample_height: Ratio) -> (sampler: Sampler<'a, I>)
        requires
            sample_width.wf(),
            sample_height.wf(),
        ensures
            sampler.image() == image_view(image),
            sampler.sample_width() == sample_width,
            sampler.sample_height() == sample_height,
    {
        Sampler { image, sample_width, sample_height }
    }

    /// The rectangle of the stitches `x`, `y <= row < y + row_height`.
    fn sample_range(&self, x: u16, y: u16, row_height: u16) -> (range: SampleRange)
        ensures
            range == self.range(x as int, y as int, row_height as int),
            range.within(self.image()),
    {
        proof {
            use_type_invariant(self);
        }
        SampleRange {
            start_x: scaled_up_to(x as u32, self.sample_width, u32::MAX),
            end_x: scaled_up_to(x as u32 + 1, self.sample_width, self.image.width()),
            start_y: scaled_up_to(y as u32, self.sample_height, u32::MAX),
            end_y: scaled_up_to(
                y as u32 + row_height as u32,
                self.sample_height,
                self.image.height(),
            ),
        }
    }

    /// The pixel that occurs most often in the rectangle of the stitches
    /// `x`, `y <= row < y + row_height`.
    pub fn sample(&self, x: u16, y: u16, row_height: u16) -> (p: Option<Color>)
        ensures
            p == plurality(
                self.image(),
                self.range(x as int, y as int, row_height as int),
                Shape::Rectangle,
            ),
    {
        let range = self.sample_range(x, y, row_height);
        most_popular(self.image, range, Shape::Rectangle)
    }

    /// The pixel that occurs most often in the lower left half of the
    /// stitch `(x, y)`.
    pub fn sample_lower_left_triangle(&self, x: u16, y: u16) -> (p: Option<Color>)
        ensures
            p == plurality(self.image(), self.range(x as int, y as int, 1), Shape::LowerLeft),
    {
        let range = self.sample_range(x, y, 1);
        most_popular(self.image, range, Shape::LowerLeft)
    }

    /// The pixel that occurs most often in the upper right half of the
    /// stitch `(x, y)`.
    pub fn sample_upper_right_triangle(&self, x: u16, y: u16) -> (p: Option<Color>)
        ensures
            p == plurality(self.image(), self.range(x as int, y as int, 1), Shape::UpperRight),
    {
        let range = self.sample_range(x, y, 1);
        most_popular(self.image, range, Shape::UpperRight)
    }
}

} // verus!
