//! Intarsia knitting charts from raster images.
//!
//! An image is resampled to a grid of stitches (`grid`, `sampler`), or
//! first laid out as a mitred square (`mitre`). Each stitch is given a
//! thread, that is a bobbin of yarn, in the order of knitting, and links
//! bind stitches to the thread of another (`links`, `plan`, `fabric`).
//! The chart of the fabric is drawn as an SVG document (`fabric_svg`).
//!
//! Numbers that are not whole are held as ratios (`ratio`), and all of the
//! arithmetic is exact.

pub mod config;
pub mod dimensions;
pub mod fabric;
pub mod fabric_svg;
pub mod gauge;
pub mod grid;
pub mod links;
pub mod mitre;
pub mod mitre_image;
pub mod order;
pub mod plan;
pub mod raster;
pub mod ratio;
pub mod runs;
pub mod sampler;
pub mod stitch_image;
pub mod svg_text;
pub mod text;
pub mod xml;
