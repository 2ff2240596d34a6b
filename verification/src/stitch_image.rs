use vstd::prelude::*;

verus! {

/// An sRGB colour, one byte per channel.
pub type Color = [u8; 3];

/// The key of an absent pixel. It is larger than the key of every colour.
pub const ABSENT_KEY: u32 = 0x100_0000;

/// A colour as one number: red, green and blue as the digits of a number
/// in base 256. The order of the keys is the lexicographic order of the
/// channels.
pub open spec fn color_key(c: Color) -> int {
    c[0] as int * 65536 + c[1] as int * 256 + c[2] as int
}

/// The key of a pixel: that of its colour, or `ABSENT_KEY`.
pub open spec fn pixel_key(p: Option<Color>) -> int {
    match p {
        Some(c) => color_key(c),
        None => ABSENT_KEY as int,
    }
}

/// The pixel that a key stands for.
pub open spec fn key_pixel(key: int) -> Option<Color> {
    if 0 <= key < ABSENT_KEY {
        Some([(key / 65536) as u8, (key / 256 % 256) as u8, (key % 256) as u8])
    } else {
        None
    }
}

/// Keys are in `0 ..= ABSENT_KEY`, and a pixel is found again from its key.
pub proof fn lemma_pixel_key(p: Option<Color>)
    ensures
        0 <= pixel_key(p) <= ABSENT_KEY,
        key_pixel(pixel_key(p)) == p,
        p is None <==> pixel_key(p) == ABSENT_KEY,
{
    broadcast use vstd::array::group_array_axioms;

    match p {
        Some(c) => {
            let k = color_key(c);
            let back: Color = [(k / 65536) as u8, (k / 256 % 256) as u8, (k % 256) as u8];
            assert(back[0] == c[0]);
            assert(back[1] == c[1]);
            assert(back[2] == c[2]);
            assert(back =~= c);
        },
        None => {},
    }
}

/// Two pixels with the same key are the same pixel.
pub proof fn lemma_pixel_key_injective(p: Option<Color>, q: Option<Color>)
    requires
        pixel_key(p) == pixel_key(q),
    ensures
        p == q,
{
    lemma_pixel_key(p);
    lemma_pixel_key(q);
}

/// What an image holds: its size, and the pixel at each position inside it.
/// Outside the image `pixel` gives `None`.
#[verifier::ext_equal]
pub struct ImageView {
    pub width: int,
    pub height: int,
    pub pixel: spec_fn(int, int) -> Option<Color>,
}

impl ImageView {
    /// The size of the image is one that an image can have.
    pub open spec fn wf(self) -> bool {
        0 <= self.width <= u32::MAX && 0 <= self.height <= u32::MAX
    }

    /// The key of the pixel at `(x, y)`.
    pub open spec fn key(self, x: int, y: int) -> int {
        pixel_key((self.pixel)(x, y))
    }
}

/// A source of pixels. `None` is a transparent pixel.
///
/// The three `spec_` functions say what the image is; the executable
/// methods return just that. An image does not change while it is borrowed.
pub trait Image {
    spec fn spec_width(&self) -> u32;

    spec fn spec_height(&self) -> u32;

    spec fn spec_pixel(&self, x: u32, y: u32) -> Option<Color>;

    fn width(&self) -> (w: u32)
        ensures
            w == self.spec_width(),
    ;

    fn height(&self) -> (h: u32)
        ensures
            h == self.spec_height(),
    ;

    fn get_pixel(&self, x: u32, y: u32) -> (p: Option<Color>)
        requires
            x < self.spec_width(),
            y < self.spec_height(),
        ensures
            p == self.spec_pixel(x, y),
    ;
}

/// The view of an image: the contents that its `spec_` functions describe.
pub open spec fn image_view<I: Image>(image: &I) -> ImageView {
    ImageView {
        width: image.spec_width() as int,
        height: image.spec_height() as int,
        pixel: |x: int, y: int|
            if 0 <= x < image.spec_width() && 0 <= y < image.spec_height() {
                image.spec_pixel(x as u32, y as u32)
            } else {
                None
            },
    }
}

/// The key of a pixel, for counting.
pub fn key_of(p: &Option<Color>) -> (key: u32)
    ensures
        key == pixel_key(*p),
        key <= ABSENT_KEY,
{
    match p {
        Some(c) => {
            let r: u32 = c[0] as u32;
            let g: u32 = c[1] as u32;
            let b: u32 = c[2] as u32;
            r * 65536 + g * 256 + b
        },
        None => ABSENT_KEY,
    }
}

/// The pixel that a key stands for.
pub fn pixel_of(key: u32) -> (p: Option<Color>)
    ensures
        p == key_pixel(key as int),
{
    if key < ABSENT_KEY {
        Some([(key / 65536) as u8, (key / 256 % 256) as u8, (key % 256) as u8])
    } else {
        None
    }
}

/// Whether two pixels are the same: both absent, or the same colour.
pub fn same_pixel(p: &Option<Color>, q: &Option<Color>) -> (same: bool)
    ensures
        same == (*p == *q),
{
    let a = key_of(p);
    let b = key_of(q);
    proof {
        if a == b {
            lemma_pixel_key_injective(*p, *q);
        }
    }
    a == b
}

/// Whether two colours are the same.
pub fn same_color(a: &Color, b: &Color) -> (same: bool)
    ensures
        same == (*a == *b),
{
    broadcast use vstd::array::group_array_axioms;

    let same = a[0] == b[0] && a[1] == b[1] && a[2] == b[2];
    proof {
        if same {
            assert(*a =~= *b);
        }
    }
    same
}

} // verus!
