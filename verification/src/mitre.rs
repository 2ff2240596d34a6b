use crate::dimensions::{Dimensions, Link};
use crate::fabric::{build, plan, Error, Fabric, FabricView};
use crate::grid::{cell_index, lemma_cell_index, resampled};
use crate::ratio::Ratio;
use crate::sampler::{plurality, sample_range_of, Sampler, Shape};
use crate::stitch_image::{image_view, same_pixel, Color, Image, ImageView};
use vstd::prelude::*;

verus! {

/// The most stitches that one side of a mitred square can have: the
/// fabric is twice as wide.
pub const MAX_MITRE_STITCHES: u16 = 0x7fff;

/// A square image laid out as a mitred square is knitted: from the outer
/// edge to the centre, in two halves. The layout is `2 * size` wide and
/// `size` high. Row `y` holds `y + 1` pixels at its left end, taken from
/// the lower left triangle of the image, as many at its right end, taken
/// from the upper right triangle, and nothing between them.
#[derive(Debug)]
pub struct MitreImage {
    size: usize,
    pixels: Vec<Option<Color>>,
}

/// The size of one stitch in pixels: both ways the shorter side of the
/// image by the number of stitches.
pub open spec fn mitre_sample(src: ImageView, n: int) -> Ratio {
    Ratio {
        num: (if src.width <= src.height {
            src.width
        } else {
            src.height
        }) as u32,
        den: n as u32,
    }
}

/// The pixel at column `x` of row `y` of the layout of `src` for `n`
/// stitches. In the left half it is the stitch `(x, y)` of the image, in
/// the right half the stitch `(y, k)`, where `k` counts the columns from
/// the right end of the row back: the right half is the upper right
/// triangle turned by a quarter. The two stitches next to the gap lie on
/// the diagonal and are sampled from their half of a stitch only.
pub open spec fn mitre_pixel(src: ImageView, n: int, x: int, y: int) -> Option<Color> {
    let size = mitre_sample(src, n);
    let gap_end = 2 * n - 1 - y;
    if x < y {
        plurality(src, sample_range_of(src, size, size, x, y, 1), Shape::Rectangle)
    } else if x == y {
        plurality(src, sample_range_of(src, size, size, y, y, 1), Shape::LowerLeft)
    } else if x < gap_end {
        None
    } else if x == gap_end {
        plurality(src, sample_range_of(src, size, size, y, y, 1), Shape::UpperRight)
    } else {
        plurality(src, sample_range_of(src, size, size, y, y - (x - gap_end), 1), Shape::Rectangle)
    }
}

/// The layout of `src` for `n` stitches.
pub open spec fn mitre_view(src: ImageView, n: int) -> ImageView {
    ImageView {
        width: 2 * n,
        height: n,
        pixel: |x: int, y: int|
            if 0 <= x < 2 * n && 0 <= y < n {
                mitre_pixel(src, n, x, y)
            } else {
                None
            },
    }
}

impl Image for MitreImage {
    closed spec fn spec_width(&self) -> u32 {
        (self.size * 2) as u32
    }

    closed spec fn spec_height(&self) -> u32 {
        self.size as u32
    }

    closed spec fn spec_pixel(&self, x: u32, y: u32) -> Option<Color> {
        self.pixels@[cell_index(2 * self.size as int, x as int, y as int)]
    }

    fn width(&self) -> (w: u32) {
        proof {
            use_type_invariant(self);
        }
        self.size as u32 * 2
    }

    fn height(&self) -> (h: u32) {
        proof {
            use_type_invariant(self);
        }
        self.size as u32
    }

    fn get_pixel(&self, x: u32, y: u32) -> (p: Option<Color>) {
        proof {
            use_type_invariant(self);
            lemma_cell_index(2 * self.size as int, self.size as int, x as int, y as int);
            assert(self.size * (2 * self.size) <= 0x7fff * (2 * 0x7fff)) by (nonlinear_arith)
                requires
                    self.size <= 0x7fff,
            ;
            assert(y * (2 * self.size) >= 0) by (nonlinear_arith)
                requires
                    y >= 0,
                    self.size >= 0,
            ;
        }
        self.pixels[y as usize * (2 * self.size) + x as usize]
    }
}

impl MitreImage {
    #[verifier::type_invariant]
    spec fn well_formed(self) -> bool {
        &&& self.size <= MAX_MITRE_STITCHES
        &&& self.pixels@.len() == self.size * (2 * self.size)
    }

    /// Lays the image out for a mitred square of `n_stitches` stitches.
    pub fn new<I: Image>(image: &I, n_stitches: u16) -> (mitre: MitreImage)
        requires
            n_stitches <= MAX_MITRE_STITCHES,
        ensures
            image_view(&mitre) == mitre_view(image_view(image), n_stitches as int),
    {
        let ghost src = image_view(image);
        let ghost n = n_stitches as int;
        let mut pixels: Vec<Option<Color>> = Vec::new();
        if n_stitches > 0 {
            let width = image.width();
            let height = image.height();
            let image_size = if width <= height {
                width
            } else {
                height
            };
            let sample_size = Ratio { num: image_size, den: n_stitches as u32 };
            let sampler = Sampler::new(image, sample_size, sample_size);
            let mut y: u16 = 0;
            while y < n_stitches
                invariant
                    src == image_view(image),
                    n == n_stitches,
                    0 < n_stitches <= MAX_MITRE_STITCHES,
                    y <= n_stitches,
                    sampler.image() == src,
                    sampler.sample_width() == mitre_sample(src, n),
                    sampler.sample_height() == mitre_sample(src, n),
                    pixels@.len() == y * (2 * n),
                    forall|cx: int, cy: int|
                        0 <= cx < 2 * n && 0 <= cy < y ==> pixels@[#[trigger] cell_index(
                            2 * n,
                            cx,
                            cy,
                        )] == mitre_pixel(src, n, cx, cy),
                decreases n_stitches - y,
            {
                let gap_end: u16 = 2 * n_stitches - 1 - y;
                let mut x: u16 = 0;
                while x < 2 * n_stitches
                    invariant
                        src == image_view(image),
                        n == n_stitches,
                        0 < n_stitches <= MAX_MITRE_STITCHES,
                        y < n_stitches,
                        x <= 2 * n_stitches,
                        gap_end == 2 * n - 1 - y,
                        sampler.image() == src,
                        sampler.sample_width() == mitre_sample(src, n),
                        sampler.sample_height() == mitre_sample(src, n),
                        pixels@.len() == y * (2 * n) + x,
                        forall|cx: int, cy: int|
                            0 <= cx < 2 * n && 0 <= cy < y ==> pixels@[#[trigger] cell_index(
                                2 * n,
                                cx,
                                cy,
                            )] == mitre_pixel(src, n, cx, cy),
                        forall|cx: int|
                            0 <= cx < x ==> pixels@[#[trigger] cell_index(2 * n, cx, y as int)]
                                == mitre_pixel(src, n, cx, y as int),
                    decreases 2 * n_stitches - x,
                {
                    let pixel = if x < y {
                        sampler.sample(x, y, 1)
                    } else if x == y {
                        sampler.sample_lower_left_triangle(y, y)
                    } else if x < gap_end {
                        None
                    } else if x == gap_end {
                        sampler.sample_upper_right_triangle(y, y)
                    } else {
                        sampler.sample(y, y - (x - gap_end), 1)
                    };
                    assert(pixel == mitre_pixel(src, n, x as int, y as int));
                    let ghost before = pixels@;
                    pixels.push(pixel);
                    proof {
                        assert forall|cx: int, cy: int| 0 <= cx < 2 * n && 0 <= cy < y implies pixels@[#[trigger] cell_index(
                            2 * n,
                            cx,
                            cy,
                        )] == mitre_pixel(src, n, cx, cy) by {
                            lemma_cell_index(2 * n, y as int, cx, cy);
                            assert(before[cell_index(2 * n, cx, cy)] == mitre_pixel(src, n, cx, cy));
                        }
                        assert forall|cx: int| 0 <= cx < x + 1 implies pixels@[#[trigger] cell_index(
                            2 * n,
                            cx,
                            y as int,
                        )] == mitre_pixel(src, n, cx, y as int) by {
                            if cx < x {
                                assert(before[cell_index(2 * n, cx, y as int)] == mitre_pixel(
                                    src,
                                    n,
                                    cx,
                                    y as int,
                                ));
                            }
                        }
                    }
                    x = x + 1;
                }
                proof {
                    assert((y + 1) * (2 * n) == y * (2 * n) + 2 * n) by (nonlinear_arith);
                }
                y = y + 1;
            }
        }
        proof {
            assert(n * (2 * n) <= 0x7fff * (2 * 0x7fff)) by (nonlinear_arith)
                requires
                    0 <= n <= 0x7fff,
            ;
            if n == 0 {
                assert(0 * (2 * n) == 0);
            }
        }
        let mitre = MitreImage { size: n_stitches as usize, pixels };
        proof {
            let target = mitre_view(src, n);
            let view = image_view(&mitre);
            assert forall|x: int, y: int| #[trigger] (view.pixel)(x, y) == (target.pixel)(x, y) by {
                if 0 <= x < 2 * n && 0 <= y < n {
                    assert(mitre.pixels@[cell_index(2 * n, x, y)] == mitre_pixel(src, n, x, y));
                }
            }
            assert(view =~= target);
        }
        mitre
    }
}

/// The two links that join the stitches on both sides of the gap in row
/// `y` of the layout `m`, counted from the row above the lowest: one for
/// each of the two rows that the fabric has for the row. No links where
/// the two stitches are not of one colour.
pub open spec fn seam_pair(m: ImageView, y: int) -> Seq<Link> {
    let center = m.width / 2;
    let image_y = m.height - 2 - y;
    let left_x = center - y - 2;
    let right_x = center + y + 1;
    let left = (m.pixel)(left_x, image_y);
    let right = (m.pixel)(right_x, image_y);
    if left is None || right is None || left != right {
        Seq::empty()
    } else {
        let bottom_row = (y * 2 + 3) as u16;
        seq![
            Link {
                source: ((right_x + 1) as u16, bottom_row),
                dest: ((left_x + 1) as u16, bottom_row),
            },
            Link {
                source: ((left_x + 1) as u16, (bottom_row + 1) as u16),
                dest: ((right_x + 1) as u16, (bottom_row + 1) as u16),
            },
        ]
    }
}

/// The links across the gap for the first `rows` rows above the lowest.
pub open spec fn seam_links(m: ImageView, rows: int) -> Seq<Link>
    decreases rows,
{
    if rows <= 0 {
        Seq::empty()
    } else {
        seam_links(m, rows - 1) + seam_pair(m, rows - 1)
    }
}

/// The dimensions of the fabric of a mitred square, but for its links:
/// twice as wide, in garter stitch with stitches twice as wide as high,
/// and with links that may span the gap.
pub open spec fn mitre_dimensions(d: Dimensions) -> Dimensions {
    Dimensions {
        stitches: (2 * d.stitches) as u16,
        gauge_rows: Ratio { num: (2 * d.gauge_stitches.num) as u32, den: d.gauge_stitches.den },
        duplicate_rows: 2,
        allow_link_gaps: true,
        ..d
    }
}

/// Resampling does not look at the links.
pub proof fn lemma_resampled_without_links(img: ImageView, a: Dimensions, b: Dimensions)
    requires
        a.stitches == b.stitches,
        a.gauge_stitches == b.gauge_stitches,
        a.gauge_rows == b.gauge_rows,
        a.duplicate_rows == b.duplicate_rows,
    ensures
        resampled(img, a) == resampled(img, b),
{
    assert(resampled(img, a).colors =~= resampled(img, b).colors);
}

/// The fabric of a mitred square of `dimensions.stitches` stitches a side,
/// and the dimensions it was made to. The links of `dimensions` are kept,
/// and they are read as positions in the fabric, which is twice as wide
/// and twice as high as the square has stitches; the links across the gap
/// follow them.
pub fn make_mitre_fabric<I: Image>(image: &I, dimensions: &Dimensions) -> (result: Result<
    (Fabric, Dimensions),
    Error,
>)
    requires
        dimensions.wf(),
        dimensions.stitches <= MAX_MITRE_STITCHES,
        dimensions.gauge_stitches.num <= 0x7fff_ffff,
    ensures
        ({
            let m = mitre_view(image_view(image), dimensions.stitches as int);
            let links = dimensions.links@ + seam_links(m, dimensions.stitches - 1);
            let grid = resampled(m, mitre_dimensions(*dimensions));
            match result {
                Ok((fabric, d)) => {
                    &&& plan(grid, links, true) == Ok::<FabricView, Error>(fabric@)
                    &&& build(m, d) == Ok::<FabricView, Error>(fabric@)
                    &&& fabric@.wf()
                    &&& d.wf()
                    &&& d.links@ == links
                    &&& d.stitches == mitre_dimensions(*dimensions).stitches
                    &&& d.gauge_stitches == dimensions.gauge_stitches
                    &&& d.gauge_rows == mitre_dimensions(*dimensions).gauge_rows
                    &&& d.cm_per_stitch == dimensions.cm_per_stitch
                    &&& d.duplicate_rows == 2
                    &&& d.allow_link_gaps
                    &&& d.stitch_text == dimensions.stitch_text
                    &&& d.show_thread_counts == dimensions.show_thread_counts
                    &&& d.show_color_counts == dimensions.show_color_counts
                },
                Err(e) => plan(grid, links, true) == Err::<FabricView, Error>(e),
            }
        }),
{
    let mitre = MitreImage::new(image, dimensions.stitches);
    let ghost m = image_view(&mitre);
    let n = dimensions.stitches;
    let mut links: Vec<Link> = Vec::new();
    let mut i: usize = 0;
    while i < dimensions.links.len()
        invariant
            i <= dimensions.links@.len(),
            links@ == dimensions.links@.take(i as int),
        decreases dimensions.links@.len() - i,
    {
        links.push(dimensions.links[i]);
        proof {
            assert(links@ =~= dimensions.links@.take(i + 1));
        }
        i = i + 1;
    }
    assert(links@ =~= dimensions.links@ + seam_links(m, 0)) by {
        assert(dimensions.links@.take(i as int) =~= dimensions.links@);
    }
    if n > 1 {
        let center: u16 = n;
        let mut y: u16 = 0;
        while y < n - 1
            invariant
                m == image_view(&mitre),
                m == mitre_view(image_view(image), n as int),
                1 < n <= MAX_MITRE_STITCHES,
                center == n,
                y <= n - 1,
                links@ == dimensions.links@ + seam_links(m, y as int),
            decreases n - 1 - y,
        {
            let image_y: u16 = n - 2 - y;
            let left_x: u16 = center - y - 2;
            let right_x: u16 = center + y + 1;
            let left = mitre.get_pixel(left_x as u32, image_y as u32);
            let right = mitre.get_pixel(right_x as u32, image_y as u32);
            proof {
                assert(m.width / 2 == center);
                assert(left == (m.pixel)(left_x as int, image_y as int));
                assert(right == (m.pixel)(right_x as int, image_y as int));
            }
            if left.is_some() && right.is_some() && same_pixel(&left, &right) {
                let bottom_row: u16 = y * 2 + 3;
                links.push(
                    Link { source: (right_x + 1, bottom_row), dest: (left_x + 1, bottom_row) },
                );
                links.push(
                    Link {
                        source: (left_x + 1, bottom_row + 1),
                        dest: (right_x + 1, bottom_row + 1),
                    },
                );
            }
            proof {
                assert(links@ =~= dimensions.links@ + seam_links(m, y + 1));
            }
            y = y + 1;
        }
    }
    let mitre_dimensions = Dimensions {
        stitches: 2 * n,
        gauge_stitches: dimensions.gauge_stitches,
        gauge_rows: Ratio {
            num: 2 * dimensions.gauge_stitches.num,
            den: dimensions.gauge_stitches.den,
        },
        cm_per_stitch: dimensions.cm_per_stitch,
        duplicate_rows: 2,
        allow_link_gaps: true,
        links,
        stitch_text: dimensions.stitch_text,
        show_thread_counts: dimensions.show_thread_counts,
        show_color_counts: dimensions.show_color_counts,
    };
    proof {
        lemma_resampled_without_links(m, mitre_dimensions, self::mitre_dimensions(*dimensions));
    }
    match Fabric::new(&mitre, &mitre_dimensions) {
        Ok(fabric) => Ok((fabric, mitre_dimensions)),
        Err(e) => Err(e),
    }
}

} // verus!
