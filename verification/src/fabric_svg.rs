use crate::dimensions::{Dimensions, StitchText};
use crate::fabric::{Fabric, FabricView};
use crate::runs::{color_counts, color_tally, row_runs, runs_upto, ColorCount, Run};
use crate::stitch_image::Color;
use crate::svg_text::{
    box_height, box_path, box_path_string, cross_path, cross_path_string, decimal_string,
    fill_string, fill_text, grid_path, grid_path_string, height_string, height_text,
    half_line_text, line_width_text, translate_string, translate_text, BoxHeight,
};
use crate::text::{
    decimal, digit_char, digit_str, digit_value, is_digit_char, lemma_decimal, number_text,
    number_value, push_decimal, push_number,
};
use crate::xml::{flat, push_child, Document, Element, Xml};
use vstd::prelude::*;
use vstd::string::StringExecFns;

verus! {

/// Text on a colour whose channels sum to less than this is drawn in white.
pub const DARK_BELOW: u16 = 384;

/// Whether text on the colour is drawn in white.
pub fn is_dark(color: &Color) -> (dark: bool)
    ensures
        dark == self::dark(*color),
{
    let sum: u16 = color[0] as u16 + color[1] as u16 + color[2] as u16;
    sum < DARK_BELOW
}

/// The letter that stands for the digit `d` in the name of a thread.
pub open spec fn letter_char(d: int) -> char {
    if d == 0 {
        'A'
    } else if d == 1 {
        'B'
    } else if d == 2 {
        'C'
    } else if d == 3 {
        'D'
    } else if d == 4 {
        'E'
    } else if d == 5 {
        'F'
    } else if d == 6 {
        'G'
    } else if d == 7 {
        'H'
    } else if d == 8 {
        'I'
    } else if d == 9 {
        'J'
    } else if d == 10 {
        'K'
    } else if d == 11 {
        'L'
    } else if d == 12 {
        'M'
    } else if d == 13 {
        'N'
    } else if d == 14 {
        'O'
    } else if d == 15 {
        'P'
    } else if d == 16 {
        'Q'
    } else if d == 17 {
        'R'
    } else if d == 18 {
        'S'
    } else if d == 19 {
        'T'
    } else if d == 20 {
        'U'
    } else if d == 21 {
        'V'
    } else if d == 22 {
        'W'
    } else if d == 23 {
        'X'
    } else if d == 24 {
        'Y'
    } else {
        'Z'
    }
}

/// The name of the thread `id` on the chart: its number in base 26, with
/// the letters `A` to `Z` as the digits 0 to 25, the first digit first.
/// So thread 0 is `A`, thread 25 is `Z` and thread 26 is `BA`.
pub open spec fn thread_name(id: nat) -> Seq<char>
    decreases id,
{
    if id < 26 {
        seq![letter_char(id as int)]
    } else {
        thread_name(id / 26).push(letter_char((id % 26) as int))
    }
}

/// One letter of the name of a thread as text.
fn letter_str(d: u32) -> (s: &'static str)
    requires
        d < 26,
    ensures
        s@ == seq![letter_char(d as int)],
{
    proof {
        reveal_strlit("A");
        reveal_strlit("B");
        reveal_strlit("C");
        reveal_strlit("D");
        reveal_strlit("E");
        reveal_strlit("F");
        reveal_strlit("G");
        reveal_strlit("H");
        reveal_strlit("I");
        reveal_strlit("J");
        reveal_strlit("K");
        reveal_strlit("L");
        reveal_strlit("M");
        reveal_strlit("N");
        reveal_strlit("O");
        reveal_strlit("P");
        reveal_strlit("Q");
        reveal_strlit("R");
        reveal_strlit("S");
        reveal_strlit("T");
        reveal_strlit("U");
        reveal_strlit("V");
        reveal_strlit("W");
        reveal_strlit("X");
        reveal_strlit("Y");
        reveal_strlit("Z");
    }
    let s = if d == 0 {
        "A"
    } else if d == 1 {
        "B"
    } else if d == 2 {
        "C"
    } else if d == 3 {
        "D"
    } else if d == 4 {
        "E"
    } else if d == 5 {
        "F"
    } else if d == 6 {
        "G"
    } else if d == 7 {
        "H"
    } else if d == 8 {
        "I"
    } else if d == 9 {
        "J"
    } else if d == 10 {
        "K"
    } else if d == 11 {
        "L"
    } else if d == 12 {
        "M"
    } else if d == 13 {
        "N"
    } else if d == 14 {
        "O"
    } else if d == 15 {
        "P"
    } else if d == 16 {
        "Q"
    } else if d == 17 {
        "R"
    } else if d == 18 {
        "S"
    } else if d == 19 {
        "T"
    } else if d == 20 {
        "U"
    } else if d == 21 {
        "V"
    } else if d == 22 {
        "W"
    } else if d == 23 {
        "X"
    } else if d == 24 {
        "Y"
    } else {
        "Z"
    };
    assert(s@ =~= seq![letter_char(d as int)]);
    s
}

/// Writes the name of the thread `id` at the end of `out`.
pub fn push_thread_name(out: &mut String, id: u32)
    ensures
        final(out)@ == old(out)@ + thread_name(id as nat),
    decreases id,
{
    if id >= 26 {
        push_thread_name(out, id / 26);
    }
    out.append(letter_str(id % 26));
    assert(final(out)@ =~= old(out)@ + thread_name(id as nat));
}

/// The name of the thread `id` on the chart.
pub fn thread_label(id: u32) -> (label: String)
    ensures
        label@ == thread_name(id as nat),
{
    let mut label = String::new();
    push_thread_name(&mut label, id);
    assert(label@ =~= thread_name(id as nat));
    label
}

/// The length in millimetres that a length of `mm` millimetres is written
/// as: itself below 10 mm, and above that the nearest whole centimetre,
/// a half rounded up.
pub open spec fn shown_mm(mm: nat) -> nat {
    if mm < 10 {
        mm
    } else {
        (mm + 5) / 10 * 10
    }
}

/// The part of a length in metres that follows the whole metres: nothing
/// for no centimetres, else a point, the tenths and, unless there are
/// none, the hundredths.
pub open spec fn fraction_text(cm: nat) -> Seq<char> {
    if cm == 0 {
        Seq::empty()
    } else if cm % 10 == 0 {
        seq!['.', digit_char((cm / 10) as int)]
    } else {
        seq!['.', digit_char((cm / 10) as int), digit_char((cm % 10) as int)]
    }
}

/// A length of `mm` millimetres as text: in millimetres below 10 mm, in
/// whole centimetres below 1 m, and in metres with the centimetres as
/// decimals above that.
pub open spec fn length_text(mm: nat) -> Seq<char> {
    if mm < 10 {
        decimal(mm) + "mm"@
    } else {
        let cm = (mm + 5) / 10;
        if cm < 100 {
            decimal(cm) + "cm"@
        } else {
            decimal(cm / 100) + fraction_text(cm % 100) + "m"@
        }
    }
}

/// The length in millimetres that a text names which is written as
/// `length_text` writes: digits and `mm`, digits and `cm`, or digits, one
/// or two decimals where there are any, and `m`.
pub open spec fn written_mm(text: Seq<char>) -> nat {
    let n = text.len() as int;
    if n >= 2 && text[n - 2] == 'm' && text[n - 1] == 'm' {
        number_value(text.take(n - 2))
    } else if n >= 2 && text[n - 2] == 'c' && text[n - 1] == 'm' {
        number_value(text.take(n - 2)) * 10
    } else if n >= 3 && text[n - 3] == '.' {
        number_value(text.take(n - 3)) * 1000 + digit_value(text[n - 2]) * 100
    } else if n >= 4 && text[n - 4] == '.' {
        number_value(text.take(n - 4)) * 1000 + digit_value(text[n - 3]) * 100 + digit_value(
            text[n - 2],
        ) * 10
    } else {
        number_value(text.take(n - 1)) * 1000
    }
}

/// The text of a length names the length that is shown: one that is no
/// more than 5 mm away from the length, and that is written as itself.
pub proof fn lemma_written_mm(mm: nat)
    ensures
        written_mm(length_text(mm)) == shown_mm(mm),
        mm <= shown_mm(mm) + 4,
        shown_mm(mm) <= mm + 5,
        length_text(shown_mm(mm)) == length_text(mm),
{
    reveal_strlit("mm");
    reveal_strlit("cm");
    reveal_strlit("m");
    let text = length_text(mm);
    let n = text.len() as int;
    if mm < 10 {
        lemma_decimal(mm);
        assert(text.take(n - 2) =~= decimal(mm));
    } else {
        let cm = (mm + 5) / 10;
        if cm < 100 {
            lemma_decimal(cm);
            assert(text.take(n - 2) =~= decimal(cm));
        } else {
            let whole = decimal(cm / 100);
            let rest = cm % 100;
            lemma_decimal(cm / 100);
            let k = whole.len() as int;
            assert(is_digit_char(whole[k - 1]));
            if rest == 0 {
                assert(text =~= whole + "m"@);
                assert(text[n - 2] == whole[k - 1]);
                if k >= 2 {
                    assert(is_digit_char(whole[k - 2]));
                    assert(text[n - 3] == whole[k - 2]);
                }
                if k >= 3 {
                    assert(is_digit_char(whole[k - 3]));
                    assert(text[n - 4] == whole[k - 3]);
                }
                assert(text.take(n - 1) =~= whole);
            } else if rest % 10 == 0 {
                assert(text =~= whole + seq!['.', digit_char((rest / 10) as int)] + "m"@);
                assert(text[n - 3] == '.');
                assert(text[n - 2] == digit_char((rest / 10) as int));
                assert(text.take(n - 3) =~= whole);
            } else {
                assert(text =~= whole + seq![
                    '.',
                    digit_char((rest / 10) as int),
                    digit_char((rest % 10) as int),
                ] + "m"@);
                assert(text[n - 4] == '.');
                assert(text[n - 3] == digit_char((rest / 10) as int));
                assert(text[n - 2] == digit_char((rest % 10) as int));
                assert(text.take(n - 4) =~= whole);
            }
        }
    }
}

/// A longer length is not written as a shorter one: the length that the
/// text of the shorter names is no longer than the one that the text of
/// the longer names.
pub proof fn lemma_length_text_monotonic(a: nat, b: nat)
    requires
        a <= b,
    ensures
        written_mm(length_text(a)) <= written_mm(length_text(b)),
{
    lemma_written_mm(a);
    lemma_written_mm(b);
}

/// Writes a length of `mm` millimetres at the end of `out`.
pub fn mm_to_text(out: &mut String, mm: u32)
    ensures
        final(out)@ == old(out)@ + length_text(mm as nat),
{
    if mm < 10 {
        push_decimal(out, mm as u128);
        out.append("mm");
    } else {
        let cm: u32 = ((mm as u64 + 5) / 10) as u32;
        if cm < 100 {
            push_decimal(out, cm as u128);
            out.append("cm");
        } else {
            push_decimal(out, (cm / 100) as u128);
            let rem_cm = cm % 100;
            if rem_cm > 0 {
                proof {
                    reveal_strlit(".");
                }
                out.append(".");
                out.append(digit_str(rem_cm / 10));
                if rem_cm % 10 != 0 {
                    out.append(digit_str(rem_cm % 10));
                }
            }
            assert(out@ =~= old(out)@ + decimal((cm / 100) as nat) + fraction_text(
                (cm % 100) as nat,
            ));
            out.append("m");
        }
    }
    assert(final(out)@ =~= old(out)@ + length_text(mm as nat));
}

/// The length of yarn in millimetres that `n` stitches take, and no more
/// than `u32::MAX`. Where the length of a stitch is known, it is that
/// length times `n`, rounded. Otherwise it is three times the width of the
/// stitches: `n * 100 * 3` over the gauge, which is in stitches to 10 cm,
/// plus a half, rounded, and that is one more than the whole millimetres
/// of three times the width.
pub open spec fn yarn_mm(d: Dimensions, n: nat) -> nat {
    let exact = match d.cm_per_stitch {
        Some(length) => (2 * (n * length.num * 10) + length.den) / (2 * length.den),
        None => (n * 300 * d.gauge_stitches.den) / (d.gauge_stitches.num as int) + 1,
    };
    if exact < u32::MAX {
        exact as nat
    } else {
        u32::MAX as nat
    }
}

/// The number of stitches and, in brackets, the length of their yarn.
pub open spec fn count_text(d: Dimensions, n: nat) -> Seq<char> {
    decimal(n) + " ("@ + length_text(yarn_mm(d, n)) + ")"@
}

/// The length of yarn in millimetres that `n_stitches` stitches take.
pub fn yarn_length(dimensions: &Dimensions, n_stitches: u32) -> (mm: u32)
    requires
        dimensions.wf(),
    ensures
        mm == yarn_mm(*dimensions, n_stitches as nat),
{
    let exact: u128 = match dimensions.cm_per_stitch {
        Some(length) => {
            assert(n_stitches * length.num * 10 <= 0xffff_ffff * 0xffff_ffff * 10)
                by (nonlinear_arith)
                requires
                    0 <= n_stitches <= 0xffff_ffff,
                    0 <= length.num <= 0xffff_ffff,
            ;
            assert(n_stitches * length.num >= 0) by (nonlinear_arith)
                requires
                    n_stitches >= 0,
                    length.num >= 0,
            ;
            (2 * (n_stitches as u128 * length.num as u128 * 10) + length.den as u128) / (2
                * length.den as u128)
        },
        None => {
            assert(n_stitches * 300 * dimensions.gauge_stitches.den <= 0xffff_ffff * 300
                * 0xffff_ffff) by (nonlinear_arith)
                requires
                    0 <= n_stitches <= 0xffff_ffff,
                    0 <= dimensions.gauge_stitches.den <= 0xffff_ffff,
            ;
            (n_stitches as u128 * 300 * dimensions.gauge_stitches.den as u128) / (
            dimensions.gauge_stitches.num as u128) + 1
        },
    };
    if exact < u32::MAX as u128 {
        exact as u32
    } else {
        u32::MAX
    }
}

/// The number of stitches and, in brackets, the length of their yarn.
pub fn stitch_count_text(dimensions: &Dimensions, n_stitches: u32) -> (text: String)
    requires
        dimensions.wf(),
    ensures
        text@ == count_text(*dimensions, n_stitches as nat),
{
    let mut count = String::new();
    push_decimal(&mut count, n_stitches as u128);
    count.append(" (");
    let mm = yarn_length(dimensions, n_stitches);
    mm_to_text(&mut count, mm);
    count.append(")");
    assert(count@ =~= count_text(*dimensions, n_stitches as nat));
    count
}


/// Draws the chart of a fabric.
pub struct SvgGenerator<'a, D: Document> {
    pub document: &'a D,
    pub box_height: BoxHeight,
    pub fabric: &'a Fabric,
    pub dimensions: &'a Dimensions,
}

/// The column of the stitch number `i` of a fabric.
pub open spec fn column_of(f: FabricView, i: int) -> nat {
    (i % f.n_stitches) as nat
}

/// The row of the stitch number `i` of a fabric.
pub open spec fn row_of(f: FabricView, i: int) -> nat {
    (i / f.n_stitches) as nat
}

/// The box of a stitch: a path that is filled with the colour.
pub open spec fn box_xml(h: BoxHeight, x: nat, y: nat, color: Color) -> Xml {
    Xml::new("path"@).attr("fill"@, fill_text(color)).attr("d"@, box_path(h, x, y))
}

/// The box of the stitch number `i`, if there is a stitch.
pub open spec fn box_part(f: FabricView, h: BoxHeight) -> spec_fn(int) -> Seq<Xml> {
    |i: int|
        match f.stitches[i] {
            Some(st) => seq![box_xml(h, column_of(f, i), row_of(f, i), st.color)],
            None => Seq::empty(),
        }
}

/// The boxes of all stitches, in a group.
pub open spec fn boxes_xml(f: FabricView, h: BoxHeight) -> Xml {
    Xml::new("g"@).attr("id"@, "boxes"@).with_children(flat(f.stitches.len(), box_part(f, h)))
}

/// The cross at the place number `i`, if there is no stitch.
pub open spec fn cross_part(f: FabricView, h: BoxHeight) -> spec_fn(int) -> Seq<Xml> {
    |i: int|
        match f.stitches[i] {
            Some(st) => Seq::empty(),
            None => seq![Xml::new("path"@).attr("d"@, cross_path(h, column_of(f, i), row_of(f, i)))],
        }
}

/// The crosses at all places without a stitch, in a group.
pub open spec fn missing_xml(f: FabricView, h: BoxHeight) -> Xml {
    stroked(Xml::new("g"@).attr("id"@, "missing"@)).with_children(
        flat(f.stitches.len(), cross_part(f, h)),
    )
}

/// An element with the stroke of the grey lines of the chart.
pub open spec fn stroked(xml: Xml) -> Xml {
    xml.attr("stroke-width"@, line_width_text()).attr("stroke-linecap"@, "square"@).attr(
        "stroke-linejoin"@,
        "miter"@,
    ).attr("stroke"@, "rgb(71%, 71%, 71%)"@)
}

/// A grid of `n_columns` by `n_rows` boxes.
pub open spec fn grid_xml(h: BoxHeight, n_columns: nat, n_rows: nat) -> Xml {
    stroked(Xml::new("path"@)).attr("d"@, grid_path(h, n_columns, n_rows))
}

/// An element with the font of the chart: six tenths of a box high.
pub open spec fn with_appearance(xml: Xml, h: BoxHeight) -> Xml {
    xml.attr("font-family"@, "Sans"@).attr("font-size"@, height_text(h, 6))
}

/// A text with its base line in the box that begins `tenths` tenths of a
/// box from the top.
pub open spec fn with_text_y(xml: Xml, h: BoxHeight, tenths: nat) -> Xml {
    xml.attr("y"@, height_text(h, tenths + 7))
}

/// A text in the middle of the box at `(x, tenths)`.
pub open spec fn with_text_position(xml: Xml, h: BoxHeight, x: nat, tenths: nat) -> Xml {
    with_text_y(xml.attr("x"@, decimal(x + 10)), h, tenths).attr("text-anchor"@, "middle"@)
}

/// A number in the box at `(x, tenths)`.
pub open spec fn number_xml(h: BoxHeight, x: nat, tenths: nat, number: nat) -> Xml {
    with_text_position(Xml::new("text"@), h, x, tenths).text(decimal(number))
}

/// The numbers of the rows in the column that begins at `x`: row 1 is
/// the lowest.
pub open spec fn row_numbers(f: FabricView, h: BoxHeight, x: nat) -> spec_fn(int) -> Seq<Xml> {
    |y: int| seq![number_xml(h, x, ((y + 1) * 10) as nat, (f.n_rows - y) as nat)]
}

/// The numbers of the stitches in the row that begins `tenths` tenths of
/// a box from the top: stitch 1 is the rightmost.
pub open spec fn stitch_numbers(f: FabricView, h: BoxHeight, tenths: nat) -> spec_fn(int) -> Seq<
    Xml,
> {
    |x: int| seq![number_xml(h, ((x + 1) * 20) as nat, tenths, (f.n_stitches - x) as nat)]
}

/// The rulers: the numbers of the rows to the right and to the left of
/// the fabric, those of the stitches below and above it. The fabric lies
/// one box from the left and from the top.
pub open spec fn rulers_xml(f: FabricView, h: BoxHeight) -> Xml {
    with_appearance(Xml::new("g"@).attr("id"@, "rulers"@), h).with_children(
        flat(f.n_rows as nat, row_numbers(f, h, ((f.n_stitches + 1) * 20) as nat)) + flat(
            f.n_rows as nat,
            row_numbers(f, h, 0),
        ) + flat(f.n_stitches as nat, stitch_numbers(f, h, ((f.n_rows + 1) * 10) as nat)) + flat(
            f.n_stitches as nat,
            stitch_numbers(f, h, 0),
        ),
    )
}

/// The address of the name of the thread `id`.
pub open spec fn thread_href(id: nat) -> Seq<char> {
    "#thread-"@ + decimal(id)
}

/// The name of the thread `thread` at `(x, tenths)`: in white on a dark
/// colour.
pub open spec fn thread_use_xml(h: BoxHeight, thread: nat, x: nat, tenths: nat, color: Color)
    -> Xml {
    let named = Xml::new("use"@).attr("xlink"@ + ":"@ + "href"@, thread_href(thread)).attr(
        "x"@,
        decimal(x),
    ).attr("y"@, height_text(h, tenths));
    if dark(color) {
        named.attr("fill"@, "rgb(100%, 100%, 100%)"@)
    } else {
        named
    }
}

/// Text on the colour is drawn in white.
pub open spec fn dark(color: Color) -> bool {
    color[0] + color[1] + color[2] < 384
}

/// The name of the thread of the stitch number `i`, if there is a stitch.
pub open spec fn thread_part(f: FabricView, h: BoxHeight) -> spec_fn(int) -> Seq<Xml> {
    |i: int|
        match f.stitches[i] {
            Some(st) => seq![
                thread_use_xml(
                    h,
                    st.thread as nat,
                    column_of(f, i) * 20,
                    row_of(f, i) * 10,
                    st.color,
                ),
            ],
            None => Seq::empty(),
        }
}

/// The names of the threads of all stitches, in a group.
pub open spec fn box_threads_xml(f: FabricView, h: BoxHeight) -> Xml {
    Xml::new("g"@).attr("id"@, "box-threads"@).with_children(
        flat(f.stitches.len(), thread_part(f, h)),
    )
}

/// The number that is written on a run of the row `y`: the length of the
/// run, or else what the ruler shows at its left end, that is the number
/// of stitches from the right edge of the fabric to the end of the run.
pub open spec fn run_number(f: FabricView, run: Run, lengths: bool) -> nat {
    if lengths {
        run.len as nat
    } else {
        (f.n_stitches - run.start) as nat
    }
}

/// The number on a run, in the middle of the run: in white on a dark
/// colour.
pub open spec fn run_xml(f: FabricView, h: BoxHeight, y: nat, run: Run, lengths: bool) -> Xml {
    let number = with_text_position(
        Xml::new("text"@),
        h,
        (run.start * 20 + run.len * 10 - 10) as nat,
        y * 10,
    );
    let filled = if dark(run.color) {
        number.attr("fill"@, "rgb(100%, 100%, 100%)"@)
    } else {
        number
    };
    filled.text(decimal(run_number(f, run, lengths)))
}

/// The numbers on the runs of the row `y`.
pub open spec fn run_part(f: FabricView, h: BoxHeight, lengths: bool) -> spec_fn(int) -> Seq<Xml> {
    |y: int|
        {
            let runs = runs_upto(f.stitches, y * f.n_stitches, f.n_stitches);
            Seq::new(runs.len(), |k: int| run_xml(f, h, y as nat, runs[k], lengths))
        }
}

/// The numbers on the runs of all rows, in a group.
pub open spec fn runs_xml(f: FabricView, h: BoxHeight, lengths: bool) -> Xml {
    with_appearance(Xml::new("g"@).attr("id"@, "box-runs"@), h).with_children(
        flat(f.n_rows as nat, run_part(f, h, lengths)),
    )
}

/// The name of a thread as the chart defines it, for the stitches to
/// refer to.
pub open spec fn def_xml(h: BoxHeight, id: nat) -> Xml {
    with_text_position(with_appearance(Xml::new("text"@), h), h, 0, 0).text(thread_name(id)).attr(
        "id"@,
        "thread-"@ + decimal(id),
    )
}

/// The definition of the name of the thread number `i`.
pub open spec fn def_part(f: FabricView, h: BoxHeight) -> spec_fn(int) -> Seq<Xml> {
    |i: int| seq![def_xml(h, f.threads[i].id as nat)]
}

/// The definitions of the names of all threads.
pub open spec fn defs_xml(f: FabricView, h: BoxHeight) -> Xml {
    Xml::new("defs"@).with_children(flat(f.threads.len(), def_part(f, h)))
}

/// The box and the name of the thread number `i` in the list of threads.
pub open spec fn thread_row_part(f: FabricView, h: BoxHeight) -> spec_fn(int) -> Seq<Xml> {
    |i: int|
        {
            let t = f.threads[i];
            seq![
                box_xml(h, 0, i as nat, t.color),
                thread_use_xml(h, t.id as nat, 0, (i * 10) as nat, t.color),
            ]
        }
}

/// A count of stitches in the row `i` of a list.
pub open spec fn count_xml(h: BoxHeight, d: Dimensions, i: nat, count: nat) -> Xml {
    with_text_y(Xml::new("text"@).attr("x"@, "30"@), h, i * 10).text(count_text(d, count))
}

/// The count of the stitches of the thread number `i`.
pub open spec fn thread_count_part(f: FabricView, h: BoxHeight, d: Dimensions) -> spec_fn(int)
    -> Seq<Xml> {
    |i: int| seq![count_xml(h, d, i as nat, f.threads[i].stitch_count as nat)]
}

/// The list of the threads, `top` rows below the top of the chart: for
/// each a box of its colour with its name in it, framed by a grid, and
/// beside it the number of its stitches and the length of their yarn.
pub open spec fn thread_counts_xml(f: FabricView, h: BoxHeight, d: Dimensions, top: nat) -> Xml {
    Xml::new("g"@).attr("id"@, "thread-counts"@).attr(
        "transform"@,
        translate_text(h, 20, top * 10),
    ).with_children(flat(f.threads.len(), thread_row_part(f, h))).child(
        grid_xml(h, 1, f.threads.len()),
    ).child(
        with_appearance(Xml::new("g"@), h).with_children(
            flat(f.threads.len(), thread_count_part(f, h, d)),
        ),
    )
}

/// The box of the colour number `i` in the list of colours.
pub open spec fn color_row_part(tally: Seq<ColorCount>, h: BoxHeight) -> spec_fn(int) -> Seq<Xml> {
    |i: int| seq![box_xml(h, 0, i as nat, tally[i].color)]
}

/// The length of the yarn of `count` stitches in the row `i` of a list.
pub open spec fn yarn_xml(h: BoxHeight, d: Dimensions, i: nat, count: nat) -> Xml {
    with_text_y(Xml::new("text"@).attr("x"@, "30"@), h, i * 10).text(
        length_text(yarn_mm(d, count)),
    )
}

/// The length of the yarn of the colour number `i`, for no more than
/// `u32::MAX` stitches.
pub open spec fn color_count_part(tally: Seq<ColorCount>, h: BoxHeight, d: Dimensions) -> spec_fn(
    int,
) -> Seq<Xml> {
    |i: int| seq![yarn_xml(h, d, i as nat, capped(tally[i].stitch_count))]
}

/// A count, and no more than `u32::MAX`.
pub open spec fn capped(count: u64) -> nat {
    if count < u32::MAX {
        count as nat
    } else {
        u32::MAX as nat
    }
}

/// The list of the colours, `top` rows below the top of the chart: for
/// each a box, framed by a grid, and beside it the length of the yarn of
/// its stitches. The colour with the most stitches comes first.
pub open spec fn color_counts_xml(f: FabricView, h: BoxHeight, d: Dimensions, top: nat) -> Xml {
    let tally = color_tally(f.threads);
    Xml::new("g"@).attr("id"@, "color-counts"@).attr(
        "transform"@,
        translate_text(h, 20, top * 10),
    ).with_children(flat(tally.len(), color_row_part(tally, h))).child(
        grid_xml(h, 1, tally.len()),
    ).child(
        with_appearance(Xml::new("g"@), h).with_children(
            flat(tally.len(), color_count_part(tally, h, d)),
        ),
    )
}

/// The stroke of the grey lines of the chart.
fn set_stroke<E: Element>(element: &mut E)
    ensures
        final(element)@ == stroked(old(element)@),
{
    let mut width = String::new();
    push_number(&mut width, 20, 6);
    assert(width@ =~= line_width_text());
    element.add_attribute("stroke-width", width.as_str());
    element.add_attribute("stroke-linecap", "square");
    element.add_attribute("stroke-linejoin", "miter");
    element.add_attribute("stroke", "rgb(71%, 71%, 71%)");
}

impl<'a, D: Document> SvgGenerator<'a, D> {
    /// The height of the boxes is the one that the dimensions give.
    pub open spec fn wf(&self) -> bool {
        &&& self.dimensions.wf()
        &&& self.box_height == box_height(*self.dimensions)
        &&& self.box_height.wf()
        &&& self.fabric@.wf()
    }

    /// A generator for the chart of `fabric`.
    pub fn new(document: &'a D, dimensions: &'a Dimensions, fabric: &'a Fabric) -> (generator:
        SvgGenerator<'a, D>)
        requires
            dimensions.wf(),
        ensures
            generator.wf(),
            generator.document == document,
            generator.fabric == fabric,
            generator.dimensions == dimensions,
    {
        let _ = fabric.n_rows();
        SvgGenerator { document, box_height: BoxHeight::new(dimensions), fabric, dimensions }
    }

    /// The box of a stitch of the colour `color` at column `x` of row `y`.
    pub fn generate_box(&self, x: u32, y: u32, color: Color) -> (path: D::Element)
        requires
            self.wf(),
        ensures
            path@ == box_xml(self.box_height, x as nat, y as nat, color),
    {
        let mut path = self.document.create_element("path");
        path.add_attribute("fill", fill_string(&color).as_str());
        path.add_attribute("d", box_path_string(self.box_height, x, y).as_str());
        path
    }

    /// The boxes of all stitches.
    pub fn generate_boxes(&self) -> (group: D::Element)
        requires
            self.wf(),
        ensures
            group@ == boxes_xml(self.fabric@, self.box_height),
    {
        let ghost f = self.fabric@;
        let ghost h = self.box_height;
        let mut group = self.document.create_element("g");
        group.add_attribute("id", "boxes");
        let ghost base = group@;
        let stitches = self.fabric.stitches();
        let n = self.fabric.n_stitches() as usize;
        let mut i: usize = 0;
        while i < stitches.len()
            invariant
                self.wf(),
                f == self.fabric@,
                h == self.box_height,
                stitches@ == f.stitches,
                n == f.n_stitches,
                i <= stitches@.len(),
                base == Xml::new("g"@).attr("id"@, "boxes"@),
                group@ == base.with_children(flat(i as nat, box_part(f, h))),
            decreases stitches@.len() - i,
        {
            proof {
                crate::grid::lemma_cell_of_index(f.n_stitches, f.n_rows, i as int);
            }
            if let Some(stitch) = &stitches[i] {
                let path = self.generate_box((i % n) as u32, (i / n) as u32, stitch.color);
                push_child(&mut group, path, Ghost(base), Ghost(flat(i as nat, box_part(f, h))));
                assert(flat((i + 1) as nat, box_part(f, h)) =~= flat(i as nat, box_part(f, h)).push(
                    path@,
                ));
            } else {
                assert(flat((i + 1) as nat, box_part(f, h)) =~= flat(i as nat, box_part(f, h)));
            }
            i = i + 1;
        }
        group
    }

    /// The crosses at the places without a stitch.
    pub fn generate_missing(&self) -> (group: D::Element)
        requires
            self.wf(),
        ensures
            group@ == missing_xml(self.fabric@, self.box_height),
    {
        let ghost f = self.fabric@;
        let ghost h = self.box_height;
        let mut group = self.document.create_element("g");
        group.add_attribute("id", "missing");
        set_stroke(&mut group);
        let ghost base = group@;
        let stitches = self.fabric.stitches();
        let n = self.fabric.n_stitches() as usize;
        let mut i: usize = 0;
        while i < stitches.len()
            invariant
                self.wf(),
                f == self.fabric@,
                h == self.box_height,
                stitches@ == f.stitches,
                n == f.n_stitches,
                i <= stitches@.len(),
                base == stroked(Xml::new("g"@).attr("id"@, "missing"@)),
                group@ == base.with_children(flat(i as nat, cross_part(f, h))),
            decreases stitches@.len() - i,
        {
            proof {
                crate::grid::lemma_cell_of_index(f.n_stitches, f.n_rows, i as int);
            }
            if stitches[i].is_none() {
                let mut path = self.document.create_element("path");
                path.add_attribute("d",
                    cross_path_string(self.box_height, (i % n) as u32, (i / n) as u32).as_str(),
                );
                push_child(&mut group, path, Ghost(base), Ghost(flat(i as nat, cross_part(f, h))));
                assert(flat((i + 1) as nat, cross_part(f, h)) =~= flat(
                    i as nat,
                    cross_part(f, h),
                ).push(path@));
            } else {
                assert(flat((i + 1) as nat, cross_part(f, h)) =~= flat(i as nat, cross_part(f, h)));
            }
            i = i + 1;
        }
        group
    }

    /// A grid of `n_columns` by `n_rows` boxes.
    pub fn generate_grid_no_id(&self, n_columns: u32, n_rows: u32) -> (path: D::Element)
        requires
            self.wf(),
        ensures
            path@ == grid_xml(self.box_height, n_columns as nat, n_rows as nat),
    {
        let mut path = self.document.create_element("path");
        set_stroke(&mut path);
        path.add_attribute("d",
            grid_path_string(self.box_height, n_columns, n_rows).as_str(),
        );
        path
    }

    /// The grid of the fabric.
    pub fn generate_grid(&self) -> (path: D::Element)
        requires
            self.wf(),
        ensures
            path@ == grid_xml(
                self.box_height,
                self.fabric@.n_stitches as nat,
                self.fabric@.n_rows as nat,
            ).attr("id"@, "grid"@),
    {
        let mut path = self.generate_grid_no_id(
            self.fabric.n_stitches() as u32,
            self.fabric.n_rows() as u32,
        );
        path.add_attribute("id", "grid");
        path
    }

    /// Gives an element the font of the chart.
    pub fn set_text_appearance(&self, element: &mut D::Element)
        requires
            self.wf(),
        ensures
            final(element)@ == with_appearance(old(element)@, self.box_height),
    {
        element.add_attribute("font-family", "Sans");
        element.add_attribute("font-size", height_string(self.box_height, 6).as_str());
    }

    /// Puts the base line of a text into the box that begins `tenths`
    /// tenths of a box from the top.
    pub fn set_text_y(&self, text: &mut D::Element, tenths: u64)
        requires
            self.wf(),
            tenths <= 0x3f_0000_0000,
        ensures
            final(text)@ == with_text_y(
                old(text)@,
                self.box_height,
                tenths as nat,
            ),
    {
        text.add_attribute("y", height_string(self.box_height, tenths + 7).as_str());
    }

    /// Puts a text into the middle of the box at `(x, tenths)`.
    pub fn set_text_position(&self, text: &mut D::Element, x: u32, tenths: u64)
        requires
            self.wf(),
            tenths <= 0x3f_0000_0000,
        ensures
            final(text)@ == with_text_position(
                old(text)@,
                self.box_height,
                x as nat,
                tenths as nat,
            ),
    {
        text.add_attribute("x", decimal_string(x as u128 + 10).as_str());
        self.set_text_y(text, tenths);
        text.add_attribute("text-anchor", "middle");
    }

    /// A number in the box at `(x, tenths)`.
    fn generate_number(&self, x: u32, tenths: u64, number: u32) -> (text: D::Element)
        requires
            self.wf(),
            tenths <= 0x3f_0000_0000,
        ensures
            text@ == number_xml(self.box_height, x as nat, tenths as nat, number as nat),
    {
        let mut text = self.document.create_element("text");
        self.set_text_position(&mut text, x, tenths);
        text.add_text(decimal_string(number as u128).as_str());
        text
    }

    /// Puts the numbers of the rows into `group`, in the column that
    /// begins at `x`.
    fn add_row_numbers(
        &self,
        group: &mut D::Element,
        x: u32,
        Ghost(base): Ghost<Xml>,
        Ghost(before): Ghost<Seq<Xml>>,
    )
        requires
            self.wf(),
            !(base.content is Text),
            old(group)@ == base.with_children(before),
        ensures
            final(group)@ == base.with_children(
                before + flat(
                    self.fabric@.n_rows as nat,
                    row_numbers(self.fabric@, self.box_height, x as nat),
                ),
            ),
    {
        let ghost f = self.fabric@;
        let ghost part = row_numbers(f, self.box_height, x as nat);
        let n_rows = self.fabric.n_rows();
        let mut y: u16 = 0;
        assert(before + flat(0, part) =~= before);
        while y < n_rows
            invariant
                self.wf(),
                f == self.fabric@,
                n_rows == f.n_rows,
                y <= n_rows,
                !(base.content is Text),
                part == row_numbers(f, self.box_height, x as nat),
                group@ == base.with_children(before + flat(y as nat, part)),
            decreases n_rows - y,
        {
            let text = self.generate_number(x, (y as u64 + 1) * 10, (n_rows - y) as u32);
            push_child(group, text, Ghost(base), Ghost(before + flat(y as nat, part)));
            assert(before + flat((y + 1) as nat, part) =~= (before + flat(y as nat, part)).push(
                text@,
            ));
            y = y + 1;
        }
    }

    /// Puts the numbers of the stitches into `group`, in the row that
    /// begins `tenths` tenths of a box from the top.
    fn add_stitch_numbers(
        &self,
        group: &mut D::Element,
        tenths: u64,
        Ghost(base): Ghost<Xml>,
        Ghost(before): Ghost<Seq<Xml>>,
    )
        requires
            self.wf(),
            tenths <= 0x3f_0000_0000,
            !(base.content is Text),
            old(group)@ == base.with_children(before),
        ensures
            final(group)@ == base.with_children(
                before + flat(
                    self.fabric@.n_stitches as nat,
                    stitch_numbers(self.fabric@, self.box_height, tenths as nat),
                ),
            ),
    {
        let ghost f = self.fabric@;
        let ghost part = stitch_numbers(f, self.box_height, tenths as nat);
        let n_stitches = self.fabric.n_stitches();
        let mut x: u16 = 0;
        assert(before + flat(0, part) =~= before);
        while x < n_stitches
            invariant
                self.wf(),
                f == self.fabric@,
                n_stitches == f.n_stitches,
                x <= n_stitches,
                tenths <= 0x3f_0000_0000,
                !(base.content is Text),
                part == stitch_numbers(f, self.box_height, tenths as nat),
                group@ == base.with_children(before + flat(x as nat, part)),
            decreases n_stitches - x,
        {
            let text = self.generate_number((x as u32 + 1) * 20, tenths, (n_stitches - x) as u32);
            push_child(group, text, Ghost(base), Ghost(before + flat(x as nat, part)));
            assert(before + flat((x + 1) as nat, part) =~= (before + flat(x as nat, part)).push(
                text@,
            ));
            x = x + 1;
        }
    }

    /// The rulers on the four sides of the fabric.
    pub fn generate_rulers(&self) -> (group: D::Element)
        requires
            self.wf(),
        ensures
            group@ == rulers_xml(self.fabric@, self.box_height),
    {
        let ghost f = self.fabric@;
        let ghost h = self.box_height;
        let mut group = self.document.create_element("g");
        group.add_attribute("id", "rulers");
        self.set_text_appearance(&mut group);
        let ghost base = group@;
        let n_stitches = self.fabric.n_stitches();
        let n_rows = self.fabric.n_rows();
        let right = (n_stitches as u32 + 1) * 20;
        let below = (n_rows as u64 + 1) * 10;
        let ghost rows_right = flat(f.n_rows as nat, row_numbers(f, h, right as nat));
        let ghost rows_left = flat(f.n_rows as nat, row_numbers(f, h, 0));
        let ghost stitches_below = flat(f.n_stitches as nat, stitch_numbers(f, h, below as nat));
        self.add_row_numbers(&mut group, right, Ghost(base), Ghost(Seq::empty()));
        assert(Seq::<Xml>::empty() + rows_right =~= rows_right);
        self.add_row_numbers(&mut group, 0, Ghost(base), Ghost(rows_right));
        self.add_stitch_numbers(&mut group, below, Ghost(base), Ghost(rows_right + rows_left));
        self.add_stitch_numbers(
            &mut group,
            0,
            Ghost(base),
            Ghost(rows_right + rows_left + stitches_below),
        );
        group
    }

    /// The name of the thread `thread` at `(x, tenths)`, on the colour
    /// `color`.
    pub fn generate_box_thread_text(&self, thread: u32, x: u32, tenths: u64, color: Color) -> (element:
        D::Element)
        requires
            self.wf(),
            tenths <= 0x3f_0000_0000,
        ensures
            element@ == thread_use_xml(
                self.box_height,
                thread as nat,
                x as nat,
                tenths as nat,
                color,
            ),
    {
        let mut element = self.document.create_element("use");
        let mut href = String::from_str("#thread-");
        push_decimal(&mut href, thread as u128);
        assert(href@ =~= thread_href(thread as nat));
        element.add_attribute_ns("xlink", "href", href.as_str());
        element.add_attribute("x", decimal_string(x as u128).as_str());
        element.add_attribute("y", height_string(self.box_height, tenths).as_str());
        if is_dark(&color) {
            element.add_attribute("fill", "rgb(100%, 100%, 100%)");
        }
        element
    }

    /// The names of the threads of all stitches.
    pub fn generate_box_threads(&self) -> (group: D::Element)
        requires
            self.wf(),
        ensures
            group@ == box_threads_xml(self.fabric@, self.box_height),
    {
        let ghost f = self.fabric@;
        let ghost h = self.box_height;
        let mut group = self.document.create_element("g");
        group.add_attribute("id", "box-threads");
        let ghost base = group@;
        let stitches = self.fabric.stitches();
        let n = self.fabric.n_stitches() as usize;
        let mut i: usize = 0;
        while i < stitches.len()
            invariant
                self.wf(),
                f == self.fabric@,
                h == self.box_height,
                stitches@ == f.stitches,
                n == f.n_stitches,
                i <= stitches@.len(),
                base == Xml::new("g"@).attr("id"@, "box-threads"@),
                group@ == base.with_children(flat(i as nat, thread_part(f, h))),
            decreases stitches@.len() - i,
        {
            proof {
                crate::grid::lemma_cell_of_index(f.n_stitches, f.n_rows, i as int);
            }
            if let Some(stitch) = &stitches[i] {
                let element = self.generate_box_thread_text(
                    stitch.thread,
                    (i % n) as u32 * 20,
                    (i / n) as u64 * 10,
                    stitch.color,
                );
                push_child(&mut group, element, Ghost(base), Ghost(flat(i as nat, thread_part(f, h))));
                assert(flat((i + 1) as nat, thread_part(f, h)) =~= flat(
                    i as nat,
                    thread_part(f, h),
                ).push(element@));
            } else {
                assert(flat((i + 1) as nat, thread_part(f, h)) =~= flat(i as nat, thread_part(f, h)));
            }
            i = i + 1;
        }
        group
    }

    /// The numbers on the runs of all rows: their lengths, or what the
    /// ruler shows at their left ends.
    pub fn generate_box_runs(&self, lengths: bool) -> (group: D::Element)
        requires
            self.wf(),
        ensures
            group@ == runs_xml(self.fabric@, self.box_height, lengths),
    {
        let ghost f = self.fabric@;
        let ghost h = self.box_height;
        let ghost part = run_part(f, h, lengths);
        let mut group = self.document.create_element("g");
        group.add_attribute("id", "box-runs");
        self.set_text_appearance(&mut group);
        let ghost base = group@;
        let stitches = self.fabric.stitches();
        let n_stitches = self.fabric.n_stitches();
        let n_rows = self.fabric.n_rows();
        let mut y: u16 = 0;
        while y < n_rows
            invariant
                self.wf(),
                f == self.fabric@,
                h == self.box_height,
                part == run_part(f, h, lengths),
                stitches@ == f.stitches,
                n_stitches == f.n_stitches,
                n_rows == f.n_rows,
                y <= n_rows,
                base == with_appearance(Xml::new("g"@).attr("id"@, "box-runs"@), h),
                group@ == base.with_children(flat(y as nat, part)),
            decreases n_rows - y,
        {
            proof {
                assert((y + 1) * n_stitches <= n_rows * n_stitches) by (nonlinear_arith)
                    requires
                        0 <= y < n_rows,
                        0 <= n_stitches,
                ;
                assert((y + 1) * n_stitches == y * n_stitches + n_stitches) by (nonlinear_arith);
                assert(n_rows * n_stitches <= 0xffff * 0xffff) by (nonlinear_arith)
                    requires
                        0 <= n_rows <= 0xffff,
                        0 <= n_stitches <= 0xffff,
                ;
                assert(y * n_stitches >= 0) by (nonlinear_arith)
                    requires
                        y >= 0,
                        n_stitches >= 0,
                ;
            }
            let first = y as usize * n_stitches as usize;
            let runs = row_runs(stitches, first, n_stitches);
            let ghost labels = part(y as int);
            let ghost done = flat(y as nat, part);
            proof {
                crate::runs::lemma_runs(f.stitches, first as int, n_stitches as int);
            }
            let mut k: usize = 0;
            assert(done + labels.take(0) =~= done);
            while k < runs.len()
                invariant
                    self.wf(),
                    f == self.fabric@,
                    h == self.box_height,
                    n_stitches == f.n_stitches,
                    y < f.n_rows,
                    k <= runs@.len(),
                    runs@ == runs_upto(f.stitches, y * f.n_stitches, f.n_stitches),
                    forall|i: int|
                        0 <= i < runs@.len() ==> 1 <= (#[trigger] runs@[i]).len && runs@[i].start
                            + runs@[i].len <= n_stitches,
                    labels == Seq::new(
                        runs@.len(),
                        |i: int| run_xml(f, h, y as nat, runs@[i], lengths),
                    ),
                    !(base.content is Text),
                    group@ == base.with_children(done + labels.take(k as int)),
                decreases runs@.len() - k,
            {
                let run = runs[k];
                let mut text = self.document.create_element("text");
                self.set_text_position(
                    &mut text,
                    run.start as u32 * 20 + run.len as u32 * 10 - 10,
                    y as u64 * 10,
                );
                if is_dark(&run.color) {
                    text.add_attribute("fill", "rgb(100%, 100%, 100%)");
                }
                let number = if lengths {
                    run.len as u32
                } else {
                    (n_stitches - run.start) as u32
                };
                text.add_text(decimal_string(number as u128).as_str());
                assert(text@ == run_xml(f, h, y as nat, run, lengths));
                push_child(&mut group, text, Ghost(base), Ghost(done + labels.take(k as int)));
                assert(done + labels.take(k + 1) =~= (done + labels.take(k as int)).push(
                    text@,
                ));
                k = k + 1;
            }
            assert(flat((y + 1) as nat, part) =~= done + labels.take(k as int)) by {
                assert(labels.take(k as int) =~= labels);
            }
            y = y + 1;
        }
        group
    }

    /// The definitions of the names of the threads.
    pub fn generate_defs(&self) -> (defs: D::Element)
        requires
            self.wf(),
        ensures
            defs@ == defs_xml(self.fabric@, self.box_height),
    {
        let ghost f = self.fabric@;
        let ghost h = self.box_height;
        let ghost part = def_part(f, h);
        let mut defs = self.document.create_element("defs");
        let ghost base = defs@;
        let threads = self.fabric.threads();
        let mut i: usize = 0;
        while i < threads.len()
            invariant
                self.wf(),
                f == self.fabric@,
                h == self.box_height,
                part == def_part(f, h),
                threads@ == f.threads,
                i <= threads@.len(),
                base == Xml::new("defs"@),
                defs@ == base.with_children(flat(i as nat, part)),
            decreases threads@.len() - i,
        {
            let thread = &threads[i];
            let mut element = self.document.create_element("text");
            self.set_text_appearance(&mut element);
            self.set_text_position(&mut element, 0, 0);
            element.add_text(thread_label(thread.id).as_str());
            let mut id = String::from_str("thread-");
            push_decimal(&mut id, thread.id as u128);
            element.add_attribute("id", id.as_str());
            assert(element@ == def_xml(h, thread.id as nat));
            push_child(&mut defs, element, Ghost(base), Ghost(flat(i as nat, part)));
            assert(flat((i + 1) as nat, part) =~= flat(i as nat, part).push(element@));
            i = i + 1;
        }
        defs
    }

    /// A count of stitches in the row `i` of a list.
    fn generate_count(&self, i: u32, count: u32) -> (text: D::Element)
        requires
            self.wf(),
        ensures
            text@ == count_xml(self.box_height, *self.dimensions, i as nat, count as nat),
    {
        let mut text = self.document.create_element("text");
        text.add_attribute("x", "30");
        self.set_text_y(&mut text, i as u64 * 10);
        text.add_text(stitch_count_text(self.dimensions, count).as_str());
        text
    }

    /// The list of the threads, `top` rows below the top of the chart.
    pub fn generate_thread_counts(&self, top: u64) -> (group: D::Element)
        requires
            self.wf(),
            top <= 0x3_0000_0000,
        ensures
            group@ == thread_counts_xml(
                self.fabric@,
                self.box_height,
                *self.dimensions,
                top as nat,
            ),
    {
        let ghost f = self.fabric@;
        let ghost h = self.box_height;
        let ghost d = *self.dimensions;
        let ghost rows = thread_row_part(f, h);
        let ghost texts = thread_count_part(f, h, d);
        let mut group = self.document.create_element("g");
        group.add_attribute("id", "thread-counts");
        group.add_attribute("transform",
            translate_string(self.box_height, 20, top * 10).as_str(),
        );
        let ghost base = group@;
        let mut counts = self.document.create_element("g");
        self.set_text_appearance(&mut counts);
        let ghost counts_base = counts@;
        let threads = self.fabric.threads();
        proof {
            assert(f.n_rows * f.n_stitches <= 0xffff * 0xffff) by (nonlinear_arith)
                requires
                    0 <= f.n_rows <= 0xffff,
                    0 <= f.n_stitches <= 0xffff,
            ;
        }
        let mut i: usize = 0;
        while i < threads.len()
            invariant
                self.wf(),
                f == self.fabric@,
                h == self.box_height,
                d == *self.dimensions,
                rows == thread_row_part(f, h),
                texts == thread_count_part(f, h, d),
                threads@ == f.threads,
                i <= threads@.len() <= 0xffff * 0xffff,
                !(base.content is Text),
                !(counts_base.content is Text),
                group@ == base.with_children(flat(i as nat, rows)),
                counts@ == counts_base.with_children(flat(i as nat, texts)),
            decreases threads@.len() - i,
        {
            let thread = &threads[i];
            let ghost done = flat(i as nat, rows);
            let path = self.generate_box(0, i as u32, thread.color);
            push_child(&mut group, path, Ghost(base), Ghost(done));
            let name = self.generate_box_thread_text(thread.id, 0, i as u64 * 10, thread.color);
            push_child(&mut group, name, Ghost(base), Ghost(done.push(path@)));
            assert(flat((i + 1) as nat, rows) =~= done.push(path@).push(name@));
            let text = self.generate_count(i as u32, thread.stitch_count);
            push_child(&mut counts, text, Ghost(counts_base), Ghost(flat(i as nat, texts)));
            assert(flat((i + 1) as nat, texts) =~= flat(i as nat, texts).push(text@));
            i = i + 1;
        }
        proof {
            crate::xml::lemma_with_children_push(base, flat(i as nat, rows), Xml::new("x"@));
        }
        group.add_child(self.generate_grid_no_id(1, threads.len() as u32));
        group.add_child(counts);
        group
    }

    /// The list of the colours, `top` rows below the top of the chart.
    pub fn generate_color_counts(&self, top: u64) -> (group: D::Element)
        requires
            self.wf(),
            top <= 0x3_0000_0000,
        ensures
            group@ == color_counts_xml(
                self.fabric@,
                self.box_height,
                *self.dimensions,
                top as nat,
            ),
    {
        let ghost f = self.fabric@;
        let ghost h = self.box_height;
        let ghost d = *self.dimensions;
        let threads = self.fabric.threads();
        proof {
            assert(f.n_rows * f.n_stitches <= 0xffff * 0xffff) by (nonlinear_arith)
                requires
                    0 <= f.n_rows <= 0xffff,
                    0 <= f.n_stitches <= 0xffff,
            ;
            crate::runs::lemma_color_tally_len(f.threads);
        }
        let tally = color_counts(threads);
        let ghost rows = color_row_part(tally@, h);
        let ghost texts = color_count_part(tally@, h, d);
        let mut group = self.document.create_element("g");
        group.add_attribute("id", "color-counts");
        group.add_attribute("transform",
            translate_string(self.box_height, 20, top * 10).as_str(),
        );
        let ghost base = group@;
        let mut counts = self.document.create_element("g");
        self.set_text_appearance(&mut counts);
        let ghost counts_base = counts@;
        let mut i: usize = 0;
        while i < tally.len()
            invariant
                self.wf(),
                f == self.fabric@,
                h == self.box_height,
                d == *self.dimensions,
                rows == color_row_part(tally@, h),
                texts == color_count_part(tally@, h, d),
                tally@ == color_tally(f.threads),
                i <= tally@.len() <= 0xffff * 0xffff,
                !(base.content is Text),
                !(counts_base.content is Text),
                group@ == base.with_children(flat(i as nat, rows)),
                counts@ == counts_base.with_children(flat(i as nat, texts)),
            decreases tally@.len() - i,
        {
            let count = &tally[i];
            let path = self.generate_box(0, i as u32, count.color);
            push_child(&mut group, path, Ghost(base), Ghost(flat(i as nat, rows)));
            assert(flat((i + 1) as nat, rows) =~= flat(i as nat, rows).push(path@));
            let stitches = if count.stitch_count < u32::MAX as u64 {
                count.stitch_count as u32
            } else {
                u32::MAX
            };
            let mut text = self.document.create_element("text");
            text.add_attribute("x", "30");
            self.set_text_y(&mut text, i as u64 * 10);
            let mut length = String::new();
            mm_to_text(&mut length, yarn_length(self.dimensions, stitches));
            assert(length@ =~= length_text(yarn_mm(d, stitches as nat)));
            text.add_text(length.as_str());
            push_child(&mut counts, text, Ghost(counts_base), Ghost(flat(i as nat, texts)));
            assert(flat((i + 1) as nat, texts) =~= flat(i as nat, texts).push(text@));
            i = i + 1;
        }
        proof {
            crate::xml::lemma_with_children_push(base, flat(i as nat, rows), Xml::new("x"@));
        }
        group.add_child(self.generate_grid_no_id(1, tally.len() as u32));
        group.add_child(counts);
        group
    }
}

/// The rows that a list of `rows` entries takes on the chart, with the
/// empty row above it: none where the list is not shown.
pub open spec fn panel_rows(shown: bool, rows: nat) -> nat {
    if shown {
        rows + 1
    } else {
        0
    }
}

/// The height of the chart in rows: the fabric, a row for the rulers
/// above and below it, and the lists.
pub open spec fn chart_rows(f: FabricView, d: Dimensions) -> nat {
    (f.n_rows + 2) as nat + panel_rows(d.show_thread_counts, f.threads.len()) + panel_rows(
        d.show_color_counts,
        color_tally(f.threads).len(),
    )
}

/// The width of the chart: the fabric, a box for the rulers on either
/// side, and the width of a line.
pub open spec fn chart_width(f: FabricView) -> Seq<char> {
    number_text(((f.n_stitches + 2) * 120 + 20) as nat, 6)
}

/// The height of the chart: its rows and the width of a line.
pub open spec fn chart_height(f: FabricView, h: BoxHeight, d: Dimensions) -> Seq<char> {
    number_text(6 * chart_rows(f, d) * h.num as nat + 20 * h.den as nat, 6 * h.den as nat)
}

/// What is written on the stitches.
pub open spec fn labels_xml(f: FabricView, h: BoxHeight, d: Dimensions) -> Seq<Xml> {
    match d.stitch_text {
        StitchText::NoText => Seq::empty(),
        StitchText::Thread => seq![placed(box_threads_xml(f, h), h)],
        StitchText::Runs => seq![placed(runs_xml(f, h, true), h)],
        StitchText::Ruler => seq![placed(runs_xml(f, h, false), h)],
    }
}

/// A layer of the fabric at its place on the chart: one box from the
/// left and from the top, where the rulers leave room for it.
pub open spec fn placed(xml: Xml, h: BoxHeight) -> Xml {
    xml.attr("transform"@, translate_text(h, 20, 10))
}

/// The lists below the fabric: the threads, then the colours, each where
/// it is shown. A row is left empty above each.
pub open spec fn panels_xml(f: FabricView, h: BoxHeight, d: Dimensions) -> Seq<Xml> {
    (if d.show_thread_counts {
        seq![thread_counts_xml(f, h, d, (f.n_rows + 3) as nat)]
    } else {
        Seq::empty()
    }) + (if d.show_color_counts {
        seq![
            color_counts_xml(
                f,
                h,
                d,
                (f.n_rows + 3) as nat + panel_rows(d.show_thread_counts, f.threads.len()),
            ),
        ]
    } else {
        Seq::empty()
    })
}

/// The shift that leaves room for half a line at the left and at the top.
pub open spec fn line_shift() -> Seq<char> {
    "translate("@ + half_line_text() + " "@ + half_line_text() + ")"@
}

/// All that the chart shows, shifted by half a line: the boxes of the
/// stitches, the grid over them, the rulers, the crosses, what is written
/// on the stitches, and the lists.
pub open spec fn body_xml(f: FabricView, h: BoxHeight, d: Dimensions) -> Xml {
    Xml::new("g"@).attr("transform"@, line_shift()).child(placed(boxes_xml(f, h), h)).child(
        placed(grid_xml(h, f.n_stitches as nat, f.n_rows as nat).attr("id"@, "grid"@), h),
    ).child(rulers_xml(f, h)).child(placed(missing_xml(f, h), h)).with_children(
        labels_xml(f, h, d),
    ).with_children(panels_xml(f, h, d))
}

/// The frame of the chart: an SVG document of the size of the chart.
pub open spec fn frame_xml(f: FabricView, h: BoxHeight, d: Dimensions) -> Xml {
    Xml::new("svg"@).attr("xmlns"@, "http://www.w3.org/2000/svg"@).attr(
        "xmlns:"@ + "xlink"@,
        "http://www.w3.org/1999/xlink"@,
    ).attr("width"@, chart_width(f)).attr("height"@, chart_height(f, h, d)).attr(
        "viewBox"@,
        "0 0 "@ + chart_width(f) + " "@ + chart_height(f, h, d),
    )
}

/// The chart of a fabric as an SVG document: the names of the threads,
/// and all that the chart shows.
pub open spec fn chart_xml(f: FabricView, d: Dimensions) -> Xml {
    let h = box_height(d);
    frame_xml(f, h, d).child(defs_xml(f, h)).child(body_xml(f, h, d))
}

impl<'a, D: Document> SvgGenerator<'a, D> {
    /// Puts a layer of the fabric at its place on the chart.
    fn place(&self, layer: &mut D::Element)
        requires
            self.wf(),
        ensures
            final(layer)@ == placed(old(layer)@, self.box_height),
    {
        layer.add_attribute("transform", translate_string(self.box_height, 20, 10).as_str());
    }

    /// What is written on the stitches, put into `body`.
    fn add_labels(&self, body: &mut D::Element)
        requires
            self.wf(),
            !(old(body)@.content is Text),
        ensures
            final(body)@ == old(body)@.with_children(
                labels_xml(self.fabric@, self.box_height, *self.dimensions),
            ),
            !(final(body)@.content is Text),
    {
        let ghost base = body@;
        assert(base.with_children(Seq::empty()) == base);
        match self.dimensions.stitch_text {
            StitchText::NoText => {},
            StitchText::Thread => {
                let mut labels = self.generate_box_threads();
                self.place(&mut labels);
                push_child(body, labels, Ghost(base), Ghost(Seq::empty()));
                assert(Seq::<Xml>::empty().push(labels@) =~= seq![labels@]);
            },
            StitchText::Runs => {
                let mut labels = self.generate_box_runs(true);
                self.place(&mut labels);
                push_child(body, labels, Ghost(base), Ghost(Seq::empty()));
                assert(Seq::<Xml>::empty().push(labels@) =~= seq![labels@]);
            },
            StitchText::Ruler => {
                let mut labels = self.generate_box_runs(false);
                self.place(&mut labels);
                push_child(body, labels, Ghost(base), Ghost(Seq::empty()));
                assert(Seq::<Xml>::empty().push(labels@) =~= seq![labels@]);
            },
        }
        proof {
            crate::xml::lemma_with_children_push(base, Seq::empty(), Xml::new("g"@));
        }
    }

    /// The lists below the fabric, put into `body`.
    fn add_panels(&self, body: &mut D::Element)
        requires
            self.wf(),
            !(old(body)@.content is Text),
        ensures
            final(body)@ == old(body)@.with_children(
                panels_xml(self.fabric@, self.box_height, *self.dimensions),
            ),
    {
        let ghost f = self.fabric@;
        let ghost h = self.box_height;
        let ghost d = *self.dimensions;
        let n_rows = self.fabric.n_rows();
        let n_threads = self.fabric.threads().len();
        proof {
            lemma_thread_bound(f);
        }
        let ghost base = body@;
        let ghost mut panels: Seq<Xml> = Seq::empty();
        assert(base.with_children(panels) == base);
        let mut top: u64 = n_rows as u64 + 3;
        if self.dimensions.show_thread_counts {
            let list = self.generate_thread_counts(top);
            push_child(body, list, Ghost(base), Ghost(panels));
            proof {
                panels = panels.push(list@);
            }
            top = top + n_threads as u64 + 1;
        }
        if self.dimensions.show_color_counts {
            let list = self.generate_color_counts(top);
            push_child(body, list, Ghost(base), Ghost(panels));
            proof {
                panels = panels.push(list@);
            }
        }
        assert(panels =~= panels_xml(f, h, d));
    }

    /// All that the chart shows: the fabric, the rulers and the lists.
    pub fn generate_body(&self) -> (body: D::Element)
        requires
            self.wf(),
        ensures
            body@ == body_xml(self.fabric@, self.box_height, *self.dimensions),
    {
        let mut body = self.document.create_element("g");
        body.add_attribute("transform", line_shift_string().as_str());
        let mut boxes = self.generate_boxes();
        self.place(&mut boxes);
        body.add_child(boxes);
        let mut grid = self.generate_grid();
        self.place(&mut grid);
        body.add_child(grid);
        body.add_child(self.generate_rulers());
        let mut missing = self.generate_missing();
        self.place(&mut missing);
        body.add_child(missing);
        self.add_labels(&mut body);
        self.add_panels(&mut body);
        body
    }

    /// The height of the chart in rows.
    fn count_rows(&self) -> (rows: u64)
        requires
            self.wf(),
        ensures
            rows == chart_rows(self.fabric@, *self.dimensions),
            rows <= 0x3_0000_0000,
    {
        let threads = self.fabric.threads();
        proof {
            lemma_thread_bound(self.fabric@);
            crate::runs::lemma_color_tally_len(self.fabric@.threads);
        }
        let thread_rows: u64 = if self.dimensions.show_thread_counts {
            threads.len() as u64 + 1
        } else {
            0
        };
        let color_rows: u64 = if self.dimensions.show_color_counts {
            color_counts(threads).len() as u64 + 1
        } else {
            0
        };
        self.fabric.n_rows() as u64 + 2 + thread_rows + color_rows
    }

    /// The width of the chart as text.
    fn width_string(&self) -> (s: String)
        requires
            self.wf(),
        ensures
            s@ == chart_width(self.fabric@),
    {
        let mut width = String::new();
        push_number(&mut width, (self.fabric.n_stitches() as u128 + 2) * 120 + 20, 6);
        assert(width@ =~= chart_width(self.fabric@));
        width
    }

    /// The height of the chart as text.
    fn height_string(&self) -> (s: String)
        requires
            self.wf(),
        ensures
            s@ == chart_height(self.fabric@, self.box_height, *self.dimensions),
    {
        let height = self.box_height;
        let rows = self.count_rows();
        let mut tall = String::new();
        let num: u128 = height.num;
        let den: u128 = height.den;
        let rows6: u128 = 6 * rows as u128;
        assert(rows6 * num <= 0x12_0000_0000int * 0x14_0000_0000_0000_0000int) by (nonlinear_arith)
            requires
                0 <= rows6 <= 0x12_0000_0000int,
                0 <= num <= 0x14_0000_0000_0000_0000int,
        ;
        push_number(&mut tall, rows6 * num + 20 * den, 6 * den);
        assert(tall@ =~= chart_height(self.fabric@, height, *self.dimensions));
        tall
    }

    /// The frame of the chart: an SVG document of the size of the chart.
    pub fn generate_frame(&self) -> (svg: D::Element)
        requires
            self.wf(),
        ensures
            svg@ == frame_xml(self.fabric@, self.box_height, *self.dimensions),
    {
        let width = self.width_string();
        let tall = self.height_string();
        let mut view_box = String::from_str("0 0 ");
        view_box.append(width.as_str());
        view_box.append(" ");
        view_box.append(tall.as_str());
        let mut svg = self.document.create_element("svg");
        svg.set_root_namespace("http://www.w3.org/2000/svg");
        svg.add_namespace("xlink", "http://www.w3.org/1999/xlink");
        svg.add_attribute("width", width.as_str());
        svg.add_attribute("height", tall.as_str());
        svg.add_attribute("viewBox", view_box.as_str());
        svg
    }
}

/// A fabric has no more threads than places.
pub proof fn lemma_thread_bound(f: FabricView)
    requires
        f.wf(),
    ensures
        f.threads.len() <= 0xffff * 0xffff,
{
    assert(f.n_rows * f.n_stitches <= 0xffff * 0xffff) by (nonlinear_arith)
        requires
            0 <= f.n_rows <= 0xffff,
            0 <= f.n_stitches <= 0xffff,
    ;
}

/// The shift that leaves room for half a line.
fn line_shift_string() -> (s: String)
    ensures
        s@ == line_shift(),
{
    let mut shift = String::from_str("translate(");
    push_number(&mut shift, 20, 12);
    shift.append(" ");
    push_number(&mut shift, 20, 12);
    shift.append(")");
    assert(shift@ =~= line_shift());
    shift
}

/// Draws the chart of a fabric that was made to `dimensions`, as a
/// document of the kind of `document`.
pub fn convert<D: Document>(document: &D, dimensions: &Dimensions, fabric: &Fabric) -> (svg:
    D::Element)
    requires
        dimensions.wf(),
    ensures
        svg@ == chart_xml(fabric@, *dimensions),
{
    let generator = SvgGenerator::new(document, dimensions, fabric);
    let mut svg = generator.generate_frame();
    svg.add_child(generator.generate_defs());
    svg.add_child(generator.generate_body());
    svg
}

} // verus!
