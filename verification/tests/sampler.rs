use stitchify::ratio::Ratio;
use stitchify::sampler::{most_popular, SampleRange, Sampler, Shape};
use stitchify::stitch_image::{Color, Image};

static FAKE_IMAGE_DATA: &[u8; 3 * 4 * 3 * 4] = b"abbbbbbbbbbb\
      aabbbbbbbbbb\
      aaabbbbbbbbb\
      aaaabbbbbbbb\
      aaaaabbbbbbb\
      aaaaaabbbbbb\
      aaaaaaabbbbb\
      aaaaaaaabbbb\
      aaaaaaaaabbb\
      aaaaaaaaaabb\
      aaaaaaaaaaab\
      aaaaaaaaaaaa";

struct DiagonalImage {}

impl Image for DiagonalImage {
    fn spec_width(&self) -> u32 {
        self.width()
    }

    fn spec_height(&self) -> u32 {
        self.height()
    }

    fn spec_pixel(&self, x: u32, y: u32) -> Option<Color> {
        self.get_pixel(x, y)
    }

    fn width(&self) -> u32 {
        12
    }

    fn height(&self) -> u32 {
        12
    }

    fn get_pixel(&self, x: u32, y: u32) -> Option<Color> {
        match FAKE_IMAGE_DATA[(y * 12 + x) as usize] {
            b'a' => Some([255, 0, 0]),
            b'b' => Some([0, 255, 0]),
            _ => None,
        }
    }
}

struct TextImage {
    width: u32,
    data: &'static [u8],
}

impl Image for TextImage {
    fn spec_width(&self) -> u32 {
        self.width()
    }

    fn spec_height(&self) -> u32 {
        self.height()
    }

    fn spec_pixel(&self, x: u32, y: u32) -> Option<Color> {
        self.get_pixel(x, y)
    }

    fn width(&self) -> u32 {
        self.width
    }

    fn height(&self) -> u32 {
        self.data.len() as u32 / self.width
    }

    fn get_pixel(&self, x: u32, y: u32) -> Option<Color> {
        match self.data[(y * self.width + x) as usize] {
            b'.' => None,
            c => Some([c, 0, c]),
        }
    }
}

#[test]
fn sample_lower_left_triangle() {
    let image = DiagonalImage {};
    let sampler = Sampler::new(&image, Ratio::from_int(4), Ratio::from_int(4));

    assert_eq!(sampler.sample_lower_left_triangle(0, 0), Some([255, 0, 0]));
    assert_eq!(sampler.sample(1, 0, 1), Some([0, 255, 0]));

    assert_eq!(sampler.sample(0, 1, 1), Some([255, 0, 0]));
    assert_eq!(sampler.sample_lower_left_triangle(1, 1), Some([255, 0, 0]));
    assert_eq!(sampler.sample(2, 1, 1), Some([0, 255, 0]));

    assert_eq!(sampler.sample(1, 2, 1), Some([255, 0, 0]));
    assert_eq!(sampler.sample_lower_left_triangle(2, 2), Some([255, 0, 0]));
}

#[test]
fn sample_upper_right_triangle() {
    let image = DiagonalImage {};
    let sampler = Sampler::new(&image, Ratio::from_int(4), Ratio::from_int(4));

    assert_eq!(sampler.sample_upper_right_triangle(0, 0), Some([0, 255, 0]));
    assert_eq!(sampler.sample(1, 0, 1), Some([0, 255, 0]));

    assert_eq!(sampler.sample(0, 1, 1), Some([255, 0, 0]));
    assert_eq!(sampler.sample_upper_right_triangle(1, 1), Some([0, 255, 0]));
    assert_eq!(sampler.sample(2, 1, 1), Some([0, 255, 0]));

    assert_eq!(sampler.sample(1, 2, 1), Some([255, 0, 0]));
    assert_eq!(sampler.sample_upper_right_triangle(2, 2), Some([0, 255, 0]));
}

#[test]
fn plurality_counts_absent_pixels() {
    let image = TextImage { width: 4, data: b"a..b" };

    let all = SampleRange { start_x: 0, end_x: 4, start_y: 0, end_y: 1 };
    assert_eq!(most_popular(&image, all, Shape::Rectangle), None);

    let left = SampleRange { start_x: 0, end_x: 2, start_y: 0, end_y: 1 };
    assert_eq!(most_popular(&image, left, Shape::Rectangle), Some([b'a', 0, b'a']));
}

#[test]
fn smaller_color_wins_a_tie() {
    let image = TextImage { width: 4, data: b"baab" };

    let all = SampleRange { start_x: 0, end_x: 4, start_y: 0, end_y: 1 };
    assert_eq!(most_popular(&image, all, Shape::Rectangle), Some([b'a', 0, b'a']));

    let image = TextImage { width: 4, data: b"cbbc" };
    assert_eq!(most_popular(&image, all, Shape::Rectangle), Some([b'b', 0, b'b']));

    let image = TextImage { width: 3, data: b"bac" };
    let all = SampleRange { start_x: 0, end_x: 3, start_y: 0, end_y: 1 };
    assert_eq!(most_popular(&image, all, Shape::Rectangle), Some([b'a', 0, b'a']));
}

#[test]
fn empty_footprint_has_no_color() {
    let image = TextImage { width: 2, data: b"aaaa" };

    let no_rows = SampleRange { start_x: 0, end_x: 2, start_y: 1, end_y: 1 };
    assert_eq!(most_popular(&image, no_rows, Shape::Rectangle), None);
    assert_eq!(most_popular(&image, no_rows, Shape::LowerLeft), None);

    let no_columns = SampleRange { start_x: 2, end_x: 2, start_y: 0, end_y: 2 };
    assert_eq!(most_popular(&image, no_columns, Shape::UpperRight), None);

    let backwards = SampleRange { start_x: 2, end_x: 1, start_y: 0, end_y: 2 };
    assert_eq!(most_popular(&image, backwards, Shape::Rectangle), None);

    let sampler = Sampler::new(&image, Ratio::from_int(1), Ratio::from_int(1));
    assert_eq!(sampler.sample(2, 0, 1), None);
    assert_eq!(sampler.sample(0, 2, 1), None);
    assert_eq!(sampler.sample(0, 0, 0), None);
    assert_eq!(sampler.sample(1, 1, 1), Some([b'a', 0, b'a']));
}

#[test]
fn triangles_take_rounded_rows() {
    // Three rows of four pixels: the rows of the lower left triangle are
    // 1, 3 and 4 pixels long, those of the upper right one 4, 3 and 1.
    let image = TextImage {
        width: 4,
        data: b"abbb\
                aaab\
                cccc",
    };
    let range = SampleRange { start_x: 0, end_x: 4, start_y: 0, end_y: 3 };

    // a: 1 + 3, c: 4, and a is the smaller colour
    assert_eq!(most_popular(&image, range, Shape::LowerLeft), Some([b'a', 0, b'a']));
    // b: 3 + 1, a: 1 + 2, c: 1
    assert_eq!(most_popular(&image, range, Shape::UpperRight), Some([b'b', 0, b'b']));
    // a: 4, b: 4, c: 4
    assert_eq!(most_popular(&image, range, Shape::Rectangle), Some([b'a', 0, b'a']));
}

#[test]
fn samples_are_rounded_to_pixels() {
    // Samples of one and a half pixels: the edges are at 0, 2, 3, 5
    let image = TextImage { width: 5, data: b"aabcc" };
    let sampler = Sampler::new(&image, Ratio::new(3, 2), Ratio::from_int(1));

    assert_eq!(sampler.sample(0, 0, 1), Some([b'a', 0, b'a']));
    assert_eq!(sampler.sample(1, 0, 1), Some([b'b', 0, b'b']));
    assert_eq!(sampler.sample(2, 0, 1), Some([b'c', 0, b'c']));
    assert_eq!(sampler.sample(3, 0, 1), None);
}
