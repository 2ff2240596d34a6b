use crate::dimensions::Dimensions;
use crate::stitch_image::Color;
use crate::text::{decimal, number_text, push_decimal, push_number};
use vstd::prelude::*;
use vstd::string::StringExecFns;

verus! {

/// The width of the box of one stitch on the chart.
pub const BOX_WIDTH: u32 = 20;

/// The height of the box of one stitch, `num / den`.
#[derive(Clone, Copy, Debug)]
pub struct BoxHeight {
    pub num: u128,
    pub den: u128,
}

/// The height of the boxes of a chart with the dimensions `d`: the width
/// of a box times the gauge in stitches by the gauge in rows.
pub open spec fn box_height(d: Dimensions) -> BoxHeight {
    BoxHeight {
        num: (BOX_WIDTH * d.gauge_stitches.num * d.gauge_rows.den) as u128,
        den: (d.gauge_stitches.den * d.gauge_rows.num) as u128,
    }
}

impl BoxHeight {
    /// The height is a number, and one that the chart can be drawn with.
    pub open spec fn wf(self) -> bool {
        &&& 0 < self.den <= 0xffff_ffff * 0xffff_ffff
        &&& self.num <= 20 * 0xffff_ffff * 0xffff_ffff
    }

    /// The height of the boxes of a chart.
    pub fn new(dimensions: &Dimensions) -> (height: BoxHeight)
        requires
            dimensions.wf(),
        ensures
            height == box_height(*dimensions),
            height.wf(),
    {
        let a = dimensions.gauge_stitches.num;
        let b = dimensions.gauge_rows.den;
        let c = dimensions.gauge_stitches.den;
        let e = dimensions.gauge_rows.num;
        proof {
            assert(0 < 20 * a <= 20 * 0xffff_ffff);
            assert(0 < 20 * a * b <= 20 * 0xffff_ffff * 0xffff_ffff) by (nonlinear_arith)
                requires
                    0 < a <= 0xffff_ffff,
                    0 < b <= 0xffff_ffff,
            ;
            assert(0 < c * e <= 0xffff_ffff * 0xffff_ffff) by (nonlinear_arith)
                requires
                    0 < c <= 0xffff_ffff,
                    0 < e <= 0xffff_ffff,
            ;
        }
        BoxHeight { num: BOX_WIDTH as u128 * a as u128 * b as u128, den: c as u128 * e as u128 }
    }
}

/// The most tenths of a box height that a place on the chart can lie from
/// the top.
pub const MAX_TENTHS: u64 = 0x40_0000_0000;

/// A height of `tenths` tenths of a box as text.
pub open spec fn height_text(h: BoxHeight, tenths: nat) -> Seq<char> {
    number_text(tenths * h.num as nat, 10 * h.den as nat)
}

/// Writes a height of `tenths` tenths of a box at the end of `out`.
pub fn push_height(out: &mut String, height: BoxHeight, tenths: u64)
    requires
        height.wf(),
        tenths <= MAX_TENTHS,
    ensures
        final(out)@ == old(out)@ + height_text(height, tenths as nat),
{
    proof {
        assert(tenths * height.num <= 0x40_0000_0000 * (20 * 0xffff_ffff * 0xffff_ffff))
            by (nonlinear_arith)
            requires
                0 <= tenths <= 0x40_0000_0000,
                0 <= height.num <= 20 * 0xffff_ffff * 0xffff_ffff,
        ;
    }
    push_number(out, tenths as u128 * height.num, 10 * height.den);
}

/// The width of the lines of the chart, a sixth of the width of a box, as
/// text.
pub open spec fn line_width_text() -> Seq<char> {
    number_text(BOX_WIDTH as nat, 6)
}

/// Half the width of the lines as text.
pub open spec fn half_line_text() -> Seq<char> {
    number_text(BOX_WIDTH as nat, 12)
}

/// A colour as the chart names it: its three channels in percent.
pub open spec fn fill_text(color: Color) -> Seq<char> {
    "rgb("@ + number_text(color[0] as nat * 100, 255) + "%, "@ + number_text(
        color[1] as nat * 100,
        255,
    ) + "%, "@ + number_text(color[2] as nat * 100, 255) + "%)"@
}

/// A colour as the chart names it.
pub fn fill_string(color: &Color) -> (s: String)
    ensures
        s@ == fill_text(*color),
{
    let mut s = String::from_str("rgb(");
    push_number(&mut s, color[0] as u128 * 100, 255);
    s.append("%, ");
    push_number(&mut s, color[1] as u128 * 100, 255);
    s.append("%, ");
    push_number(&mut s, color[2] as u128 * 100, 255);
    s.append("%)");
    assert(s@ =~= fill_text(*color));
    s
}

/// The outline of the box at column `x` of row `y`.
pub open spec fn box_path(h: BoxHeight, x: nat, y: nat) -> Seq<char> {
    "M "@ + decimal(x * BOX_WIDTH as nat) + " "@ + height_text(h, y * 10) + " l 20 0 l 0 "@
        + height_text(h, 10) + " l -20 0 z"@
}

/// The outline of the box at column `x` of row `y`.
pub fn box_path_string(height: BoxHeight, x: u32, y: u32) -> (s: String)
    requires
        height.wf(),
    ensures
        s@ == box_path(height, x as nat, y as nat),
{
    let mut s = String::from_str("M ");
    push_decimal(&mut s, x as u128 * BOX_WIDTH as u128);
    s.append(" ");
    push_height(&mut s, height, y as u64 * 10);
    s.append(" l 20 0 l 0 ");
    push_height(&mut s, height, 10);
    s.append(" l -20 0 z");
    assert(s@ =~= box_path(height, x as nat, y as nat));
    s
}

/// The two diagonals of the box at column `x` of row `y`.
pub open spec fn cross_path(h: BoxHeight, x: nat, y: nat) -> Seq<char> {
    "M "@ + decimal(x * BOX_WIDTH as nat) + " "@ + height_text(h, y * 10) + " l 20 "@ + height_text(
        h,
        10,
    ) + " M "@ + decimal((x + 1) * BOX_WIDTH as nat) + " "@ + height_text(h, y * 10) + " l -20 "@
        + height_text(h, 10)
}

/// The two diagonals of the box at column `x` of row `y`.
pub fn cross_path_string(height: BoxHeight, x: u32, y: u32) -> (s:
    String)
    requires
        height.wf(),
    ensures
        s@ == cross_path(height, x as nat, y as nat),
{
    let mut s = String::from_str("M ");
    push_decimal(&mut s, x as u128 * BOX_WIDTH as u128);
    s.append(" ");
    push_height(&mut s, height, y as u64 * 10);
    s.append(" l 20 ");
    push_height(&mut s, height, 10);
    s.append(" M ");
    push_decimal(&mut s, (x as u128 + 1) * BOX_WIDTH as u128);
    s.append(" ");
    push_height(&mut s, height, y as u64 * 10);
    s.append(" l -20 ");
    push_height(&mut s, height, 10);
    assert(s@ =~= cross_path(height, x as nat, y as nat));
    s
}

/// The vertical lines of a grid of `n_columns` by `n_rows` boxes, up to
/// the line number `upto`: each goes from the top to the bottom, and a
/// space stands between two of them.
pub open spec fn grid_columns(h: BoxHeight, n_rows: nat, upto: nat) -> Seq<char>
    decreases upto,
{
    if upto == 0 {
        Seq::empty()
    } else {
        let x = (upto - 1) as nat;
        grid_columns(h, n_rows, x) + (if x != 0 {
            " "@
        } else {
            Seq::empty()
        }) + "M "@ + decimal(x * BOX_WIDTH as nat) + " 0 l 0 "@ + height_text(h, n_rows * 10)
    }
}

/// The horizontal lines of a grid up to the line number `upto`. A space
/// stands between two of them.
pub open spec fn grid_rows(h: BoxHeight, n_columns: nat, upto: nat) -> Seq<char>
    decreases upto,
{
    if upto == 0 {
        Seq::empty()
    } else {
        let y = (upto - 1) as nat;
        grid_rows(h, n_columns, y) + (if y != 0 {
            " "@
        } else {
            Seq::empty()
        }) + "M 0 "@ + height_text(h, y * 10) + " l "@ + decimal(n_columns * BOX_WIDTH as nat)
            + " 0"@
    }
}

/// The lines of a grid of `n_columns` by `n_rows` boxes: the vertical
/// ones from the left, then the horizontal ones from the top.
pub open spec fn grid_path(h: BoxHeight, n_columns: nat, n_rows: nat) -> Seq<char> {
    grid_columns(h, n_rows, n_columns + 1) + " "@ + grid_rows(h, n_columns, n_rows + 1)
}

/// The lines of a grid of `n_columns` by `n_rows` boxes.
pub fn grid_path_string(height: BoxHeight, n_columns: u32, n_rows: u32) -> (s: String)
    requires
        height.wf(),
    ensures
        s@ == grid_path(height, n_columns as nat, n_rows as nat),
{
    let mut s = String::new();
    let mut x: u64 = 0;
    while x <= n_columns as u64
        invariant
            height.wf(),
            x <= n_columns + 1,
            s@ == grid_columns(height, n_rows as nat, x as nat),
        decreases n_columns + 1 - x,
    {
        let ghost before = s@;
        if x != 0 {
            s.append(" ");
        }
        s.append("M ");
        push_decimal(&mut s, x as u128 * BOX_WIDTH as u128);
        s.append(" 0 l 0 ");
        push_height(&mut s, height, n_rows as u64 * 10);
        x = x + 1;
        assert(s@ =~= grid_columns(height, n_rows as nat, x as nat));
    }
    s.append(" ");
    let ghost columns = s@;
    let mut y: u64 = 0;
    while y <= n_rows as u64
        invariant
            height.wf(),
            y <= n_rows + 1,
            s@ == columns + grid_rows(height, n_columns as nat, y as nat),
        decreases n_rows + 1 - y,
    {
        if y != 0 {
            s.append(" ");
        }
        s.append("M 0 ");
        push_height(&mut s, height, y * 10);
        s.append(" l ");
        push_decimal(&mut s, n_columns as u128 * BOX_WIDTH as u128);
        s.append(" 0");
        y = y + 1;
        assert(s@ =~= columns + grid_rows(height, n_columns as nat, y as nat));
    }
    s
}

/// A shift by `x` to the right and by `tenths` tenths of a box down.
pub open spec fn translate_text(h: BoxHeight, x: nat, tenths: nat) -> Seq<char> {
    "translate("@ + decimal(x) + " "@ + height_text(h, tenths) + ")"@
}

/// A shift by `x` to the right and by `tenths` tenths of a box down.
pub fn translate_string(height: BoxHeight, x: u32, tenths: u64) -> (s:
    String)
    requires
        height.wf(),
        tenths <= MAX_TENTHS,
    ensures
        s@ == translate_text(height, x as nat, tenths as nat),
{
    let mut s = String::from_str("translate(");
    push_decimal(&mut s, x as u128);
    s.append(" ");
    push_height(&mut s, height, tenths);
    s.append(")");
    assert(s@ =~= translate_text(height, x as nat, tenths as nat));
    s
}

/// The number `n` as text.
pub fn decimal_string(n: u128) -> (s: String)
    ensures
        s@ == decimal(n as nat),
{
    let mut s = String::new();
    push_decimal(&mut s, n);
    assert(s@ =~= decimal(n as nat));
    s
}

/// A height of `tenths` tenths of a box as text.
pub fn height_string(height: BoxHeight, tenths: u64) -> (s: String)
    requires
        height.wf(),
        tenths <= MAX_TENTHS,
    ensures
        s@ == height_text(height, tenths as nat),
{
    let mut s = String::new();
    push_height(&mut s, height, tenths);
    assert(s@ =~= height_text(height, tenths as nat));
    s
}

} // verus!
