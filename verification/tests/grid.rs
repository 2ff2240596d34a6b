use stitchify::dimensions::Dimensions;
use stitchify::grid::Grid;
use stitchify::ratio::Ratio;
use stitchify::stitch_image::{Color, Image};

struct Rows {
    width: u32,
    height: u32,
}

impl Image for Rows {
    fn spec_width(&self) -> u32 {
        self.width
    }

    fn spec_height(&self) -> u32 {
        self.height
    }

    fn spec_pixel(&self, x: u32, y: u32) -> Option<Color> {
        self.get_pixel(x, y)
    }

    fn width(&self) -> u32 {
        self.width
    }

    fn height(&self) -> u32 {
        self.height
    }

    fn get_pixel(&self, x: u32, y: u32) -> Option<Color> {
        assert!(x < self.width && y < self.height);
        Some([x as u8, y as u8, 0])
    }
}

fn dimensions(stitches: u16, gauge_stitches: Ratio, gauge_rows: Ratio) -> Dimensions {
    let mut dimensions = Dimensions::default();
    dimensions.stitches = stitches;
    dimensions.gauge_stitches = gauge_stitches;
    dimensions.gauge_rows = gauge_rows;
    dimensions
}

fn rows_of(grid: &Grid) -> Vec<u8> {
    (0..grid.n_rows as usize)
        .map(|y| grid.colors[y * grid.n_stitches as usize].unwrap()[1])
        .collect()
}

#[test]
fn rows_from_the_gauge() {
    // One pixel for a stitch, and 22 / 30 of a pixel for a row: 30 pixels
    // are 40.9 rows
    let image = Rows { width: 22, height: 30 };
    let grid = Grid::resample(&image, &Dimensions::default());

    assert_eq!(grid.n_stitches, 22);
    assert_eq!(grid.n_rows, 41);
    assert_eq!(grid.colors.len(), 22 * 41);

    // Two pixels for a stitch, and twice 3 / 4 of a pixel for a row
    let image = Rows { width: 8, height: 9 };
    let grid = Grid::resample(&image, &dimensions(4, Ratio::from_int(3), Ratio::from_int(4)));

    assert_eq!(grid.n_rows, 6);
    // The rows begin at 0, 1.5, 3, 4.5, 6, 7.5 pixels, rounded half up,
    // and the lower of two pixels wins
    assert_eq!(rows_of(&grid), vec![0, 2, 3, 5, 6, 8]);

    // A half is rounded up: 5 pixels of 2 / 3 rows each are 7.5 rows
    let image = Rows { width: 1, height: 5 };
    let grid = Grid::resample(&image, &dimensions(1, Ratio::from_int(2), Ratio::from_int(3)));
    assert_eq!(grid.n_rows, 8);

    // The same gauge as a ratio of ratios
    let grid = Grid::resample(&image, &dimensions(1, Ratio::new(1, 3), Ratio::new(1, 2)));
    assert_eq!(grid.n_rows, 8);
}

#[test]
fn columns_from_the_width() {
    // Two and a half pixels for a stitch, and 2 / 5 of that for a row
    let image = Rows { width: 10, height: 1 };
    let grid = Grid::resample(&image, &dimensions(4, Ratio::from_int(2), Ratio::from_int(5)));

    // The columns begin at 0, 2.5, 5, 7.5 pixels
    assert_eq!(grid.n_rows, 1);
    let columns = grid.colors.iter().map(|c| c.unwrap()[0]).collect::<Vec<u8>>();
    assert_eq!(columns, vec![0, 3, 5, 8]);
}

#[test]
fn more_stitches_than_pixels() {
    let image = Rows { width: 2, height: 2 };
    let grid = Grid::resample(&image, &dimensions(4, Ratio::from_int(1), Ratio::from_int(1)));

    // Half a pixel for a stitch: the columns begin at 0, 1, 1, 2, and
    // the stitches between 1 and 1 have no pixel
    assert_eq!(grid.n_rows, 4);
    let first_row = grid.colors[0..4].iter().map(|c| c.map(|c| c[0])).collect::<Vec<_>>();
    assert_eq!(first_row, vec![Some(0), None, Some(1), None]);
}

#[test]
fn image_without_pixels() {
    let dims = dimensions(2, Ratio::from_int(1), Ratio::from_int(1));

    let grid = Grid::resample(&Rows { width: 0, height: 0 }, &dims);
    assert_eq!((grid.n_stitches, grid.n_rows), (2, 0));
    assert!(grid.colors.is_empty());

    let grid = Grid::resample(&Rows { width: 3, height: 0 }, &dims);
    assert_eq!((grid.n_stitches, grid.n_rows), (2, 0));

    let grid = Grid::resample(&Rows { width: 0, height: 1 }, &dims);
    assert_eq!((grid.n_stitches, grid.n_rows), (2, 65535));
    assert!(grid.colors.iter().all(|c| c.is_none()));
}

#[test]
fn garter_blocks_are_counted_from_the_bottom() {
    let image = Rows { width: 1, height: 5 };
    let mut dims = dimensions(1, Ratio::from_int(1), Ratio::from_int(1));
    dims.duplicate_rows = 2;

    let grid = Grid::resample(&image, &dims);

    assert_eq!(grid.n_rows, 5);
    // The top row is a block of its own
    assert_eq!(rows_of(&grid), vec![0, 1, 1, 3, 3]);

    dims.duplicate_rows = 3;
    assert_eq!(rows_of(&Grid::resample(&image, &dims)), vec![0, 0, 2, 2, 2]);

    dims.duplicate_rows = 7;
    assert_eq!(rows_of(&Grid::resample(&image, &dims)), vec![0, 0, 0, 0, 0]);
}

struct GridImage(Grid);

impl Image for GridImage {
    fn spec_width(&self) -> u32 {
        self.width()
    }

    fn spec_height(&self) -> u32 {
        self.height()
    }

    fn spec_pixel(&self, x: u32, y: u32) -> Option<Color> {
        self.get_pixel(x, y)
    }

    fn width(&self) -> u32 {
        self.0.n_stitches as u32
    }

    fn height(&self) -> u32 {
        self.0.n_rows as u32
    }

    fn get_pixel(&self, x: u32, y: u32) -> Option<Color> {
        self.0.colors[(y * self.width() + x) as usize]
    }
}

#[test]
fn resampling_twice_changes_nothing() {
    let image = Rows { width: 40, height: 30 };

    for (gauge_stitches, gauge_rows, duplicate_rows) in
        [(1, 1, 1), (1, 1, 2), (1, 1, 3), (20, 21, 1), (21, 20, 2)]
    {
        let mut dims =
            dimensions(7, Ratio::from_int(gauge_stitches), Ratio::from_int(gauge_rows));
        dims.duplicate_rows = duplicate_rows;

        let once = Grid::resample(&image, &dims);
        let n_rows = once.n_rows;
        let colors = once.colors.clone();

        // The grid has the size of the fabric that is made of it
        let rows_again = (2 * n_rows as u64 * gauge_rows as u64 + gauge_stitches as u64)
            / (2 * gauge_stitches as u64);
        assert_eq!(rows_again, n_rows as u64);

        let twice = Grid::resample(&GridImage(once), &dims);

        assert_eq!(twice.n_stitches, 7);
        assert_eq!(twice.n_rows, n_rows);
        assert_eq!(twice.colors, colors);
    }
}

#[test]
fn image_of_the_size_of_the_fabric_is_kept() {
    let image = Rows { width: 6, height: 9 };
    let grid = Grid::resample(&image, &dimensions(6, Ratio::from_int(3), Ratio::from_int(3)));

    assert_eq!(grid.n_rows, 9);
    for y in 0..9 {
        for x in 0..6 {
            assert_eq!(grid.get(x, y), image.get_pixel(x as u32, y as u32));
        }
    }
}
