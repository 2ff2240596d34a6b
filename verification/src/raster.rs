use crate::stitch_image::{Color, Image};
use image::RgbaImage;
use vstd::prelude::*;

verus! {

/// A decoded image of the `image` crate, with red, green, blue and alpha
/// for each pixel, as a source of pixels.
#[verifier::external_body]
pub struct ImageBufWrapper(pub RgbaImage);

/// The width and the height of a buffer of the `image` crate.
pub uninterp spec fn raster_size(buffer: ImageBufWrapper) -> (u32, u32);

/// The pixels of a buffer of the `image` crate, each at its column and
/// row: red, green, blue and alpha.
pub uninterp spec fn raster_pixels(buffer: ImageBufWrapper) -> Map<(u32, u32), [u8; 4]>;

/// `ImageBuffer::width`.
#[verifier::external_body]
fn raster_width(buffer: &ImageBufWrapper) -> (width: u32)
    ensures
        width == raster_size(*buffer).0,
{
    buffer.0.width()
}

/// `ImageBuffer::height`.
#[verifier::external_body]
fn raster_height(buffer: &ImageBufWrapper) -> (height: u32)
    ensures
        height == raster_size(*buffer).1,
{
    buffer.0.height()
}

/// `ImageBuffer::get_pixel`: the four channels of the pixel at `(x, y)`.
/// The call panics on a place outside the buffer.
#[verifier::external_body]
fn raster_pixel(buffer: &ImageBufWrapper, x: u32, y: u32) -> (pixel: [u8; 4])
    requires
        x < raster_size(*buffer).0,
        y < raster_size(*buffer).1,
    ensures
        pixel == raster_pixels(*buffer)[(x, y)],
{
    buffer.0.get_pixel(x, y).0
}

/// A pixel is there where its alpha is at least this.
pub const OPAQUE_FROM: u8 = 128;

/// The colour of a pixel with an alpha channel: none where the pixel is
/// more transparent than opaque.
pub open spec fn visible(pixel: [u8; 4]) -> Option<Color> {
    if pixel[3] >= OPAQUE_FROM {
        Some([pixel[0], pixel[1], pixel[2]])
    } else {
        None
    }
}

impl Image for ImageBufWrapper {
    open spec fn spec_width(&self) -> u32 {
        raster_size(*self).0
    }

    open spec fn spec_height(&self) -> u32 {
        raster_size(*self).1
    }

    open spec fn spec_pixel(&self, x: u32, y: u32) -> Option<Color> {
        visible(raster_pixels(*self)[(x, y)])
    }

    fn width(&self) -> (w: u32) {
        raster_width(self)
    }

    fn height(&self) -> (h: u32) {
        raster_height(self)
    }

    fn get_pixel(&self, x: u32, y: u32) -> (p: Option<Color>) {
        let pixel = raster_pixel(self, x, y);
        if pixel[3] >= OPAQUE_FROM {
            Some([pixel[0], pixel[1], pixel[2]])
        } else {
            None
        }
    }
}

} // verus!
