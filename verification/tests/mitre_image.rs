use stitchify::dimensions::Dimensions;
use stitchify::fabric::Fabric;
use stitchify::mitre_image::MitreImage;
use stitchify::ratio::Ratio;
use stitchify::stitch_image::{Color, Image};

struct FakeImage {}

impl Image for FakeImage {
    fn spec_width(&self) -> u32 {
        self.width()
    }

    fn spec_height(&self) -> u32 {
        self.height()
    }

    fn spec_pixel(&self, x: u32, y: u32) -> Option<Color> {
        self.get_pixel(x, y)
    }

    fn width(&self) -> u32 {
        24
    }

    fn height(&self) -> u32 {
        24
    }

    fn get_pixel(&self, x: u32, y: u32) -> Option<Color> {
        Some([x as u8, y as u8, 0])
    }
}

#[test]
fn mitre_image_mitre_image() {
    let fake_image = FakeImage {};

    let mut dimensions = Dimensions::default();
    dimensions.gauge_stitches = Ratio::from_int(1);
    dimensions.gauge_rows = Ratio::from_int(1);
    dimensions.stitches = fake_image.width() as u16;

    let fabric = Fabric::new(&fake_image, &dimensions).unwrap();

    let image = MitreImage::new(&fabric);

    assert_eq!(image.get_pixel(0, 23), Some([0, 23, 0]));
    assert_eq!(image.get_pixel(23, 23), Some([23, 23, 0]));
    assert_eq!(image.get_pixel(0, 22), Some([0, 22, 0]));
    assert_eq!(image.get_pixel(22, 22), Some([22, 22, 0]));
    assert_eq!(image.get_pixel(23, 22), None);
    assert_eq!(image.get_pixel(0, 0), Some([0, 0, 0]));
    assert_eq!(image.get_pixel(1, 0), None);

    assert_eq!(image.get_pixel(24, 23), Some([23, 23, 0]));
    assert_eq!(image.get_pixel(47, 23), Some([23, 0, 0]));
    assert_eq!(image.get_pixel(24, 22), None);
    assert_eq!(image.get_pixel(25, 22), Some([22, 22, 0]));
    assert_eq!(image.get_pixel(47, 22), Some([22, 0, 0]));
    assert_eq!(image.get_pixel(24, 0), None);
    assert_eq!(image.get_pixel(46, 0), None);
    assert_eq!(image.get_pixel(47, 0), Some([0, 0, 0]));
}

#[test]
fn layout_of_a_fabric_is_twice_as_wide() {
    let fake_image = FakeImage {};

    let mut dimensions = Dimensions::default();
    dimensions.gauge_stitches = Ratio::from_int(1);
    dimensions.gauge_rows = Ratio::from_int(1);
    dimensions.stitches = 24;

    let fabric = Fabric::new(&fake_image, &dimensions).unwrap();
    let image = MitreImage::new(&fabric);

    assert_eq!(image.width(), 48);
    assert_eq!(image.height(), 24);
}
