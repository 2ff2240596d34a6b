use stitchify::dimensions::{Dimensions, StitchText};
use stitchify::fabric::{Fabric, Stitch, Thread};
use stitchify::fabric_svg::convert;
use stitchify::xml::DocumentWrapper;
use stitchify::grid::Grid;
use stitchify::ratio::Ratio;
use stitchify::runs::{color_counts, row_runs};

fn small_fabric() -> Fabric {
    let white = Some([255, 255, 255]);
    let black = Some([0, 0, 0]);
    let grid =
        Grid { colors: vec![white, black, None, black, black, white], n_stitches: 3, n_rows: 2 };

    Fabric::from_grid(&grid, &vec![], false).unwrap()
}

fn chart(dimensions: &Dimensions, fabric: &Fabric) -> String {
    convert(&DocumentWrapper {}, dimensions, fabric).inner.to_string()
}

fn small_dimensions() -> Dimensions {
    let mut dimensions = Dimensions::default();
    dimensions.stitches = 3;
    dimensions
}

#[test]
fn chart_of_one_stitch() {
    let grid = Grid { colors: vec![Some([255, 255, 255])], n_stitches: 1, n_rows: 1 };
    let fabric = Fabric::from_grid(&grid, &vec![], false).unwrap();

    let mut dimensions = Dimensions::default();
    dimensions.stitches = 1;
    dimensions.gauge_stitches = Ratio::from_int(1);
    dimensions.gauge_rows = Ratio::from_int(1);
    dimensions.stitch_text = StitchText::NoText;
    dimensions.show_thread_counts = false;

    let expected = "<?xml version = \"1.0\" encoding = \"UTF-8\"?>\n\
        <svg xmlns=\"http://www.w3.org/2000/svg\" \
        xmlns:xlink=\"http://www.w3.org/1999/xlink\" \
        width=\"63.333\" height=\"63.333\" viewBox=\"0 0 63.333 63.333\">\n\
        \t<defs>\n\
        \t\t<text font-family=\"Sans\" font-size=\"12\" x=\"10\" y=\"14\" \
        text-anchor=\"middle\" id=\"thread-0\">A</text>\n\
        \t</defs>\n\
        \t<g transform=\"translate(1.667 1.667)\">\n\
        \t\t<g id=\"boxes\" transform=\"translate(20 20)\">\n\
        \t\t\t<path fill=\"rgb(100%, 100%, 100%)\" d=\"M 0 0 l 20 0 l 0 20 l -20 0 z\" />\n\
        \t\t</g>\n\
        \t\t<path stroke-width=\"3.333\" stroke-linecap=\"square\" \
        stroke-linejoin=\"miter\" stroke=\"rgb(71%, 71%, 71%)\" \
        d=\"M 0 0 l 0 20 M 20 0 l 0 20 M 0 0 l 20 0 M 0 20 l 20 0\" id=\"grid\" \
        transform=\"translate(20 20)\" />\n\
        \t\t<g id=\"rulers\" font-family=\"Sans\" font-size=\"12\">\n\
        \t\t\t<text x=\"50\" y=\"34\" text-anchor=\"middle\">1</text>\n\
        \t\t\t<text x=\"10\" y=\"34\" text-anchor=\"middle\">1</text>\n\
        \t\t\t<text x=\"30\" y=\"54\" text-anchor=\"middle\">1</text>\n\
        \t\t\t<text x=\"30\" y=\"14\" text-anchor=\"middle\">1</text>\n\
        \t\t</g>\n\
        \t\t<g id=\"missing\" stroke-width=\"3.333\" stroke-linecap=\"square\" \
        stroke-linejoin=\"miter\" stroke=\"rgb(71%, 71%, 71%)\" \
        transform=\"translate(20 20)\" />\n\
        \t</g>\n\
        </svg>\n";

    assert_eq!(chart(&dimensions, &fabric), expected);
}

#[test]
fn chart_of_a_small_fabric() {
    let mut dimensions = small_dimensions();
    dimensions.show_color_counts = true;

    let svg = chart(&dimensions, &small_fabric());

    // Five boxes wide and a line; four rows for the fabric and its
    // rulers, four for the threads and three for the colours
    assert!(svg.contains("width=\"103.333\" height=\"164.667\" viewBox=\"0 0 103.333 164.667\""));

    assert!(svg.contains("<g id=\"boxes\" transform=\"translate(20 14.667)\">"));
    assert!(svg.contains("<g id=\"box-threads\" transform=\"translate(20 14.667)\">"));
    assert!(svg.contains(
        "<path fill=\"rgb(100%, 100%, 100%)\" d=\"M 0 0 l 20 0 l 0 14.667 l -20 0 z\" />"
    ));
    assert!(svg
        .contains("<path fill=\"rgb(0%, 0%, 0%)\" d=\"M 20 14.667 l 20 0 l 0 14.667 l -20 0 z\" />"));
    assert!(svg.contains("<path d=\"M 40 0 l 20 14.667 M 60 0 l -20 14.667\" />"));
    assert!(svg
        .contains("<use xlink:href=\"#thread-1\" x=\"20\" y=\"0\" fill=\"rgb(100%, 100%, 100%)\" />"));
    assert!(svg.contains("<use xlink:href=\"#thread-0\" x=\"40\" y=\"14.667\" />"));
    assert!(svg.contains(
        "d=\"M 0 0 l 0 29.333 M 20 0 l 0 29.333 M 40 0 l 0 29.333 M 60 0 l 0 29.333 \
         M 0 0 l 60 0 M 0 14.667 l 60 0 M 0 29.333 l 60 0\" id=\"grid\" \
         transform=\"translate(20 14.667)\" />"
    ));

    assert!(svg.contains("id=\"thread-2\">C</text>"));

    assert!(svg.contains("<g id=\"thread-counts\" transform=\"translate(20 73.333)\">"));
    assert!(svg.contains("<text x=\"30\" y=\"24.933\">3 (4cm)</text>"));
    assert!(svg.contains("<g id=\"color-counts\" transform=\"translate(20 132)\">"));
    assert!(svg.contains("<text x=\"30\" y=\"10.267\">4cm</text>"));
    assert!(svg.contains("<text x=\"30\" y=\"24.933\">3cm</text>"));

    // The layers in their order
    let places = ["<defs>", "id=\"boxes\"", "id=\"grid\"", "id=\"rulers\"", "id=\"missing\"",
        "id=\"box-threads\"", "id=\"thread-counts\"", "id=\"color-counts\""]
        .map(|layer| svg.find(layer).unwrap());
    assert!(places.windows(2).all(|pair| pair[0] < pair[1]));

    assert_eq!(svg.matches("<use ").count(), 5 + 3);
    assert_eq!(svg.matches("<path fill=").count(), 5 + 3 + 2);
}

#[test]
fn chart_without_lists() {
    let mut dimensions = small_dimensions();
    dimensions.show_thread_counts = false;
    dimensions.stitch_text = StitchText::NoText;

    let svg = chart(&dimensions, &small_fabric());

    assert!(svg.contains("height=\"62\""));
    assert!(!svg.contains("thread-counts"));
    assert!(!svg.contains("color-counts"));
    assert!(!svg.contains("<use "));
    assert!(!svg.contains("box-runs"));
}

#[test]
fn chart_with_runs() {
    let mut dimensions = small_dimensions();
    dimensions.stitch_text = StitchText::Runs;

    let svg = chart(&dimensions, &small_fabric());

    assert!(svg.contains(
        "<g id=\"box-runs\" font-family=\"Sans\" font-size=\"8.8\" \
         transform=\"translate(20 14.667)\">"
    ));
    assert!(svg.contains(
        "<text x=\"20\" y=\"24.933\" text-anchor=\"middle\" fill=\"rgb(100%, 100%, 100%)\">2</text>"
    ));
    assert!(svg.contains("<text x=\"50\" y=\"24.933\" text-anchor=\"middle\">1</text>"));
    assert!(!svg.contains("box-threads"));
}

#[test]
fn chart_with_ruler_numbers() {
    let mut dimensions = small_dimensions();
    dimensions.stitch_text = StitchText::Ruler;

    let svg = chart(&dimensions, &small_fabric());

    // The run of two black stitches in the lower row ends three
    // stitches from the right edge
    assert!(svg.contains(
        "<text x=\"20\" y=\"24.933\" text-anchor=\"middle\" fill=\"rgb(100%, 100%, 100%)\">3</text>"
    ));
    assert!(svg.contains("<text x=\"50\" y=\"24.933\" text-anchor=\"middle\">1</text>"));
}

fn stitch(c: u8) -> Option<Stitch> {
    Some(Stitch { color: [c, c, c], thread: 0 })
}

#[test]
fn runs_of_a_row() {
    let stitches =
        vec![stitch(0), stitch(1), stitch(1), None, stitch(1), stitch(2), stitch(2), stitch(2)];

    let runs = row_runs(&stitches, 0, 8)
        .iter()
        .map(|run| (run.start, run.len, run.color[0]))
        .collect::<Vec<(u16, u16, u8)>>();
    assert_eq!(runs, vec![(0, 1, 0), (1, 2, 1), (4, 1, 1), (5, 3, 2)]);

    // The rows of a fabric that is four stitches wide
    let runs = row_runs(&stitches, 4, 4)
        .iter()
        .map(|run| (run.start, run.len, run.color[0]))
        .collect::<Vec<(u16, u16, u8)>>();
    assert_eq!(runs, vec![(0, 1, 1), (1, 3, 2)]);

    assert!(row_runs(&stitches, 3, 1).is_empty());
    assert!(row_runs(&stitches, 8, 0).is_empty());
}

fn thread(id: u32, c: u8, stitch_count: u32) -> Thread {
    Thread { x: 0, y: 0, id, color: [c, 0, 0], stitch_count }
}

#[test]
fn colors_by_falling_count() {
    let threads = vec![
        thread(0, 1, 5),
        thread(1, 2, 7),
        thread(2, 1, 3),
        thread(3, 3, 8),
        thread(4, 4, 1),
        thread(5, 5, 7),
    ];

    let tally = color_counts(&threads)
        .iter()
        .map(|count| (count.color[0], count.stitch_count))
        .collect::<Vec<(u8, u64)>>();

    assert_eq!(tally, vec![(1, 8), (3, 8), (2, 7), (5, 7), (4, 1)]);

    assert!(color_counts(&[]).is_empty());
}
