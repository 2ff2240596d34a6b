use image::RgbaImage;
use stitchify::dimensions::Dimensions;
use stitchify::fabric::Fabric;
use stitchify::raster::ImageBufWrapper;
use stitchify::ratio::Ratio;
use stitchify::stitch_image::Image;

fn buffer() -> ImageBufWrapper {
    let data = vec![
        10, 20, 30, 255, //
        40, 50, 60, 128, //
        70, 80, 90, 127, //
        1, 2, 3, 0, //
        4, 5, 6, 200, //
        7, 8, 9, 129,
    ];

    ImageBufWrapper(RgbaImage::from_raw(3, 2, data).unwrap())
}

#[test]
fn pixels_of_a_buffer() {
    let image = buffer();

    assert_eq!(image.width(), 3);
    assert_eq!(image.height(), 2);

    assert_eq!(image.get_pixel(0, 0), Some([10, 20, 30]));
    assert_eq!(image.get_pixel(1, 0), Some([40, 50, 60]));
    assert_eq!(image.get_pixel(2, 0), None);
    assert_eq!(image.get_pixel(0, 1), None);
    assert_eq!(image.get_pixel(1, 1), Some([4, 5, 6]));
    assert_eq!(image.get_pixel(2, 1), Some([7, 8, 9]));
}

#[test]
fn fabric_of_a_buffer() {
    let image = buffer();

    let mut dimensions = Dimensions::default();
    dimensions.stitches = 3;
    dimensions.gauge_stitches = Ratio::from_int(1);
    dimensions.gauge_rows = Ratio::from_int(1);

    let fabric = Fabric::new(&image, &dimensions).unwrap();

    let colors = fabric
        .stitches()
        .iter()
        .map(|stitch| stitch.map(|s| s.color[0]))
        .collect::<Vec<Option<u8>>>();
    assert_eq!(colors, vec![Some(10), Some(40), None, None, Some(4), Some(7)]);
}
