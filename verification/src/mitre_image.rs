use crate::fabric::{Fabric, FabricView};
use crate::grid::{cell_index, lemma_cell_index};
use crate::stitch_image::{Color, Image};
use vstd::prelude::*;

verus! {

/// A square fabric laid out as a mitred square is knitted: twice as wide
/// as the fabric and as high. Row `y` holds the first `y + 1` stitches of
/// row `y` of the fabric at its left end, and at its right end the
/// stitches of column `y` from row `y` up to the top; nothing between them.
pub struct MitreImage<'a> {
    fabric: &'a Fabric,
}

/// The colour at column `x` of row `y` of a fabric.
pub open spec fn color_of(f: FabricView, x: int, y: int) -> Option<Color> {
    match f.stitches[cell_index(f.n_stitches, x, y)] {
        Some(st) => Some(st.color),
        None => None,
    }
}

/// The pixel at column `x` of row `y` of the layout of a square fabric.
pub open spec fn layout_pixel(f: FabricView, x: int, y: int) -> Option<Color> {
    let n = f.n_stitches;
    if x <= y {
        color_of(f, x, y)
    } else if x < 2 * n - 1 - y {
        None
    } else {
        color_of(f, y, 2 * n - 1 - x)
    }
}

impl<'a> MitreImage<'a> {
    #[verifier::type_invariant]
    spec fn well_formed(self) -> bool {
        self.fabric@.wf() && self.fabric@.n_stitches == self.fabric@.n_rows
    }

    /// The fabric that is laid out.
    pub closed spec fn fabric(&self) -> FabricView {
        self.fabric@
    }

    /// The layout of a square fabric.
    pub fn new(fabric: &'a Fabric) -> (image: MitreImage<'a>)
        requires
            fabric@.n_stitches == fabric@.n_rows,
        ensures
            image.fabric() == fabric@,
    {
        let _ = fabric.n_rows();
        MitreImage { fabric }
    }
}

impl<'a> Image for MitreImage<'a> {
    closed spec fn spec_width(&self) -> u32 {
        (self.fabric@.n_stitches * 2) as u32
    }

    closed spec fn spec_height(&self) -> u32 {
        self.fabric@.n_rows as u32
    }

    closed spec fn spec_pixel(&self, x: u32, y: u32) -> Option<Color> {
        layout_pixel(self.fabric@, x as int, y as int)
    }

    fn width(&self) -> (w: u32) {
        self.fabric.n_stitches() as u32 * 2
    }

    fn height(&self) -> (h: u32) {
        let n_rows = self.fabric.n_rows();
        let n_stitches = self.fabric.n_stitches();
        proof {
            use_type_invariant(self);
        }
        if n_rows < n_stitches {
            n_rows as u32
        } else {
            n_stitches as u32
        }
    }

    fn get_pixel(&self, x: u32, y: u32) -> (p: Option<Color>) {
        proof {
            use_type_invariant(self);
        }
        let stitches = self.fabric.stitches();
        let n_stitches = self.fabric.n_stitches() as u32;
        let n_rows = self.height();
        let row_width = n_stitches + y + 1 - n_rows;
        let ghost f = self.fabric@;
        let index: usize = if x < n_stitches {
            if x < row_width {
                proof {
                    lemma_cell_index(f.n_stitches, f.n_rows, x as int, y as int);
                    assert(0 <= y * n_rows <= 0xffff * 0xffff) by (nonlinear_arith)
                        requires
                            0 <= y <= 0xffff,
                            0 <= n_rows <= 0xffff,
                    ;
                }
                x as usize + y as usize * n_rows as usize
            } else {
                return None;
            }
        } else if x >= n_stitches * 2 - row_width {
            let from_left = x - n_stitches;
            proof {
                lemma_cell_index(f.n_stitches, f.n_rows, y as int, n_rows - 1 - from_left);
                assert(0 <= (n_rows - 1 - from_left) * n_stitches <= 0xffff * 0xffff)
                    by (nonlinear_arith)
                    requires
                        0 <= n_rows - 1 - from_left <= 0xffff,
                        0 <= n_stitches <= 0xffff,
                ;
            }
            (n_rows - 1 - from_left) as usize * n_stitches as usize + y as usize
        } else {
            return None;
        };
        match &stitches[index] {
            Some(stitch) => Some(stitch.color),
            None => None,
        }
    }
}

} // verus!
