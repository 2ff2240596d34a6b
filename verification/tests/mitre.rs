use stitchify::dimensions::{Dimensions, Link};
use stitchify::mitre::{make_mitre_fabric, MitreImage};
use stitchify::stitch_image::{Color, Image};

struct FakeImage {}

impl Image for FakeImage {
    fn spec_width(&self) -> u32 {
        self.width()
    }

    fn spec_height(&self) -> u32 {
        self.height()
    }

    fn spec_pixel(&self, x: u32, y: u32) -> Option<Color> {
        self.get_pixel(x, y)
    }

    fn width(&self) -> u32 {
        24
    }

    fn height(&self) -> u32 {
        24
    }

    fn get_pixel(&self, x: u32, y: u32) -> Option<Color> {
        Some([x as u8, y as u8, 0])
    }
}

const UNLINKED_DIAGONAL_IMAGE_DATA: &[u8; 12 * 12] = b"abbbbbbbbbbb\
      aabbbbbbbbbb\
      aaabbbbbbbbb\
      aaaabbbbbbbb\
      aaaa    bbbb\
      aaaa    bbbb\
      aaaa    bbbb\
      aaaa    bbbb\
      aaaaaaaaabbb\
      aaaaaaaaaabb\
      aaaaaaaaaaab\
      aaaaaaaaaaaa";

const LINKED_DIAGONAL_IMAGE_DATA: &[u8; 12 * 12] = b"aaaaaaaaaaaa\
      aaaaaaaaaaaa\
      aaaaaaaaaaaa\
      aaaaaaaaaaaa\
      aaaaabbbbbbb\
      aaaaaabbbbbb\
      aaaaaaabbbbb\
      aaaaaaaabbbb\
      aaaaaaaaabbb\
      aaaaaaaaaabb\
      aaaaaaaaaaab\
      aaaaaaaaaaaa";

struct FakeDiagonalImage {
    data: [u8; 12 * 12],
}

impl Image for FakeDiagonalImage {
    fn spec_width(&self) -> u32 {
        self.width()
    }

    fn spec_height(&self) -> u32 {
        self.height()
    }

    fn spec_pixel(&self, x: u32, y: u32) -> Option<Color> {
        self.get_pixel(x, y)
    }

    fn width(&self) -> u32 {
        12
    }

    fn height(&self) -> u32 {
        12
    }

    fn get_pixel(&self, x: u32, y: u32) -> Option<Color> {
        match self.data[(y * 12 + x) as usize] {
            b'a' => Some([255, 0, 0]),
            b'b' => Some([0, 255, 0]),
            _ => None,
        }
    }
}

#[test]
fn mitre_mitre_image() {
    let fake_image = FakeImage {};

    let image = MitreImage::new(&fake_image, 24);

    assert_eq!(image.width(), 48);
    assert_eq!(image.height(), 24);

    assert_eq!(image.get_pixel(0, 23), Some([0, 23, 0]));
    assert_eq!(image.get_pixel(23, 23), Some([23, 23, 0]));
    assert_eq!(image.get_pixel(0, 22), Some([0, 22, 0]));
    assert_eq!(image.get_pixel(22, 22), Some([22, 22, 0]));
    assert_eq!(image.get_pixel(23, 22), None);
    assert_eq!(image.get_pixel(0, 0), Some([0, 0, 0]));
    assert_eq!(image.get_pixel(1, 0), None);

    assert_eq!(image.get_pixel(24, 23), Some([23, 23, 0]));
    assert_eq!(image.get_pixel(47, 23), Some([23, 0, 0]));
    assert_eq!(image.get_pixel(24, 22), None);
    assert_eq!(image.get_pixel(25, 22), Some([22, 22, 0]));
    assert_eq!(image.get_pixel(47, 22), Some([22, 0, 0]));
    assert_eq!(image.get_pixel(24, 0), None);
    assert_eq!(image.get_pixel(46, 0), None);
    assert_eq!(image.get_pixel(47, 0), Some([0, 0, 0]));
}

#[test]
fn unlinked_diagonal_image() {
    let fake_image = FakeDiagonalImage { data: UNLINKED_DIAGONAL_IMAGE_DATA.clone() };

    let mut dimensions = Dimensions::default();
    dimensions.stitches = 3;

    let (fabric, dimensions) = make_mitre_fabric(&fake_image, &dimensions).unwrap();

    assert_eq!(fabric.n_rows(), 6);
    assert_eq!(fabric.n_stitches(), 6);
    assert_eq!(dimensions.stitches, 6);
    assert_eq!(dimensions.duplicate_rows, 2);
    assert_eq!(
        dimensions.gauge_rows.num as u64 * dimensions.gauge_stitches.den as u64,
        dimensions.gauge_stitches.num as u64 * 2 * dimensions.gauge_rows.den as u64,
    );
    assert_eq!(dimensions.links.len(), 0);

    assert_eq!(fabric.stitches()[0].as_ref().unwrap().color, [255, 0, 0]);
    assert!(fabric.stitches()[1].is_none());
    assert!(fabric.stitches()[2].is_none());
    assert!(fabric.stitches()[3].is_none());
    assert!(fabric.stitches()[4].is_none());
    assert_eq!(fabric.stitches()[5].as_ref().unwrap().color, [0, 255, 0]);

    assert_eq!(fabric.stitches()[12].as_ref().unwrap().color, [255, 0, 0]);
    assert!(fabric.stitches()[13].is_none());
    assert!(fabric.stitches()[14].is_none());
    assert!(fabric.stitches()[15].is_none());
    assert!(fabric.stitches()[16].is_none());
    assert_eq!(fabric.stitches()[17].as_ref().unwrap().color, [0, 255, 0]);
}

#[test]
fn linked_diagonal_image() {
    let fake_image = FakeDiagonalImage { data: LINKED_DIAGONAL_IMAGE_DATA.clone() };

    let mut dimensions = Dimensions::default();
    dimensions.stitches = 3;

    let (fabric, dimensions) = make_mitre_fabric(&fake_image, &dimensions).unwrap();

    assert_eq!(fabric.n_rows(), 6);
    assert_eq!(fabric.n_stitches(), 6);
    assert_eq!(dimensions.stitches, 6);
    assert_eq!(dimensions.duplicate_rows, 2);
    assert_eq!(
        dimensions.gauge_rows.num as u64 * dimensions.gauge_stitches.den as u64,
        dimensions.gauge_stitches.num as u64 * 2 * dimensions.gauge_rows.den as u64,
    );

    assert_eq!(dimensions.links.len(), 2);

    assert_eq!(dimensions.links[0].source, (6, 5));
    assert_eq!(dimensions.links[0].dest, (1, 5));
    assert_eq!(dimensions.links[1].source, (1, 6));
    assert_eq!(dimensions.links[1].dest, (6, 6));

    assert_eq!(fabric.stitches()[0].as_ref().unwrap().color, [255, 0, 0]);
    assert!(fabric.stitches()[1].is_none());
    assert!(fabric.stitches()[2].is_none());
    assert!(fabric.stitches()[3].is_none());
    assert!(fabric.stitches()[4].is_none());
    assert_eq!(fabric.stitches()[5].as_ref().unwrap().color, [255, 0, 0]);
}

#[test]
fn seam_links_bind_across_the_gap() {
    let fake_image = FakeDiagonalImage { data: LINKED_DIAGONAL_IMAGE_DATA.clone() };

    let mut dimensions = Dimensions::default();
    dimensions.stitches = 3;

    let (fabric, _) = make_mitre_fabric(&fake_image, &dimensions).unwrap();

    let thread = |x: usize, y: usize| fabric.stitches()[y * 6 + x].unwrap().thread;

    // The two topmost rows are bound across the gap to one thread
    assert_eq!(thread(0, 0), thread(5, 0));
    assert_eq!(thread(0, 1), thread(5, 1));
}

#[test]
fn user_links_come_before_seam_links() {
    let fake_image = FakeDiagonalImage { data: LINKED_DIAGONAL_IMAGE_DATA.clone() };

    let mut dimensions = Dimensions::default();
    dimensions.stitches = 3;
    dimensions.links.push(Link { source: (5, 1), dest: (6, 1) });

    let (_, dimensions) = make_mitre_fabric(&fake_image, &dimensions).unwrap();

    assert_eq!(dimensions.links.len(), 3);
    assert_eq!(dimensions.links[0].source, (5, 1));
    assert_eq!(dimensions.links[0].dest, (6, 1));
    assert_eq!(dimensions.links[1].source, (6, 5));
    assert!(dimensions.allow_link_gaps);
}

#[test]
fn mitre_image_without_stitches() {
    let image = MitreImage::new(&FakeImage {}, 0);

    assert_eq!(image.width(), 0);
    assert_eq!(image.height(), 0);
}
