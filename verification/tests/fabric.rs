use std::cmp::Ordering;
use stitchify::dimensions::{Dimensions, Link};
use stitchify::fabric::Fabric;
use stitchify::grid::Grid;
use stitchify::links::LinkMap;
use stitchify::plan::Planner;
use stitchify::ratio::Ratio;
use stitchify::stitch_image::{Color, Image};

const FAKE_IMAGE_DATA: &'static [u8] = b"##  ##\
      ##  ##\
      \x20#### \
      \x20#### \
      ##  ##\
      ##  ##";

struct FakeImage {
    width: u32,
    data: &'static [u8],
}

impl Default for FakeImage {
    fn default() -> FakeImage {
        FakeImage::new(FAKE_IMAGE_DATA, 6)
    }
}

impl FakeImage {
    fn new(data: &'static [u8], width: u32) -> FakeImage {
        FakeImage { width, data }
    }
}

impl Image for FakeImage {
    fn spec_width(&self) -> u32 {
        self.width()
    }

    fn spec_height(&self) -> u32 {
        self.height()
    }

    fn spec_pixel(&self, x: u32, y: u32) -> Option<Color> {
        self.get_pixel(x, y)
    }

    fn width(&self) -> u32 {
        self.width
    }

    fn height(&self) -> u32 {
        self.data.len() as u32 / self.width()
    }

    fn get_pixel(&self, x: u32, y: u32) -> Option<Color> {
        match self.data[(y * self.width() + x) as usize] {
            b' ' => Some([255, 255, 255]),
            b'x' => None,
            _ => Some([0, 0, 0]),
        }
    }
}

fn assert_threads(fabric: &Fabric, thread_nums: &[u32]) {
    let fabric_threads = fabric
        .stitches()
        .iter()
        .map(|stitch| stitch.as_ref().unwrap().thread)
        .collect::<Vec<u32>>();

    assert_eq!(&fabric_threads, thread_nums);
}

fn square_dimensions(image: &FakeImage) -> Dimensions {
    let mut dimensions = Dimensions::default();

    dimensions.gauge_stitches = Ratio::from_int(1);
    dimensions.gauge_rows = Ratio::from_int(1);
    dimensions.stitches = image.width() as u16;

    dimensions
}

#[test]
fn links() {
    let image = FakeImage::default();
    let mut dimensions = square_dimensions(&image);

    let fabric = Fabric::new(&image, &dimensions).unwrap();

    assert_eq!(fabric.n_stitches(), image.width() as u16);
    assert_eq!(fabric.n_rows(), image.height() as u16);

    assert_eq!(fabric.threads().len(), 7);

    assert_eq!(fabric.threads()[0].stitch_count, 16);
    assert_eq!(fabric.threads()[1].stitch_count, 4);
    assert_eq!(fabric.threads()[2].stitch_count, 4);
    assert_eq!(fabric.threads()[3].stitch_count, 2);
    assert_eq!(fabric.threads()[4].stitch_count, 2);
    assert_eq!(fabric.threads()[5].stitch_count, 4);
    assert_eq!(fabric.threads()[6].stitch_count, 4);

    for (i, thread) in fabric.threads().iter().enumerate() {
        assert_eq!(thread.id as usize, i);
        assert_eq!(
            thread.color,
            fabric.stitches()[(thread.x + thread.y * fabric.n_stitches()) as usize]
                .as_ref()
                .unwrap()
                .color,
        );
    }

    assert_threads(
        &fabric,
        &[
            6, 6, 5, 5, 0, 0, //
            6, 6, 5, 5, 0, 0, //
            4, 0, 0, 0, 0, 3, //
            4, 0, 0, 0, 0, 3, //
            2, 2, 1, 1, 0, 0, //
            2, 2, 1, 1, 0, 0,
        ],
    );

    const LINKED_THREADS: [u32; 36] = [
        2, 2, 5, 5, 0, 0, //
        2, 2, 5, 5, 0, 0, //
        4, 2, 2, 0, 0, 3, //
        4, 2, 2, 0, 0, 3, //
        2, 2, 1, 1, 0, 0, //
        2, 2, 1, 1, 0, 0,
    ];

    dimensions.links = vec![
        Link { source: (4, 3), dest: (5, 2) },
        Link { source: (3, 4), dest: (3, 3) },
    ];

    let fabric = Fabric::new(&image, &dimensions).unwrap();

    assert_eq!(fabric.threads().len(), 6);

    assert_threads(&fabric, &LINKED_THREADS);

    // Try again with the source and dest swapped
    dimensions.links = vec![
        Link { source: (5, 2), dest: (4, 3) },
        Link { source: (3, 3), dest: (3, 4) },
    ];

    let fabric = Fabric::new(&image, &dimensions).unwrap();

    assert_eq!(fabric.threads().len(), 6);

    assert_threads(&fabric, &LINKED_THREADS);
}

#[test]
fn horizontal_link() {
    let image = FakeImage::default();
    let mut dimensions = square_dimensions(&image);

    dimensions.links.push(Link { source: (1, 1), dest: (2, 1) });

    Fabric::new(&image, &dimensions).unwrap();
}

#[test]
fn allow_link_gaps() {
    let image = FakeImage::default();
    let mut dimensions = square_dimensions(&image);

    dimensions.links.push(Link { source: (5, 1), dest: (2, 1) });

    assert_eq!(
        Fabric::new(&image, &dimensions).unwrap_err().to_string(),
        "Link is too far: 5,1->2,1",
    );

    dimensions.allow_link_gaps = true;

    Fabric::new(&image, &dimensions).unwrap();
}

#[test]
fn link_to_missing_stitch() {
    const IMAGE_DATA: &'static [u8] = b"x  x";
    let image = FakeImage::new(IMAGE_DATA, 4);
    let mut dimensions = square_dimensions(&image);

    dimensions.links.push(Link { source: (3, 1), dest: (2, 1) });

    Fabric::new(&image, &dimensions).unwrap();

    dimensions.links[0] = Link { source: (4, 1), dest: (3, 1) };

    assert_eq!(
        Fabric::new(&image, &dimensions).unwrap_err().to_string(),
        "Position 4,1 is outside of the fabric",
    );

    dimensions.links[0] = Link { source: (2, 1), dest: (1, 1) };

    assert_eq!(
        Fabric::new(&image, &dimensions).unwrap_err().to_string(),
        "Position 1,1 is outside of the fabric",
    );
}

#[test]
fn thread_order() {
    let image = FakeImage::default();
    let dimensions = square_dimensions(&image);

    let fabric = Fabric::new(&image, &dimensions).unwrap();

    assert_eq!(fabric.n_rows(), 6);

    assert_eq!(fabric.compare_position_thread_order((2, 5), (3, 5)), Ordering::Less);
    assert_eq!(fabric.compare_position_thread_order((3, 5), (2, 5)), Ordering::Greater);
    assert_eq!(fabric.compare_position_thread_order((3, 5), (3, 5)), Ordering::Equal);

    assert_eq!(fabric.compare_position_thread_order((2, 4), (3, 4)), Ordering::Greater);
    assert_eq!(fabric.compare_position_thread_order((3, 4), (2, 4)), Ordering::Less);
    assert_eq!(fabric.compare_position_thread_order((3, 4), (3, 4)), Ordering::Equal);
}

#[test]
fn rows_are_compared_before_columns() {
    let image = FakeImage::default();
    let fabric = Fabric::new(&image, &square_dimensions(&image)).unwrap();

    assert_eq!(fabric.compare_position_thread_order((6, 1), (1, 2)), Ordering::Less);
    assert_eq!(fabric.compare_position_thread_order((1, 2), (6, 1)), Ordering::Greater);
}

fn present(fabric: &Fabric) -> usize {
    fabric.stitches().iter().filter(|stitch| stitch.is_some()).count()
}

fn check_invariants(fabric: &Fabric) {
    let threads = fabric.threads();

    for (i, thread) in threads.iter().enumerate() {
        assert_eq!(thread.id as usize, i);

        let count = fabric
            .stitches()
            .iter()
            .filter(|stitch| matches!(stitch, Some(s) if s.thread == thread.id))
            .count();
        assert_eq!(thread.stitch_count as usize, count);

        let last = fabric.stitches()
            [thread.y as usize * fabric.n_stitches() as usize + thread.x as usize]
            .unwrap();
        assert_eq!(last.thread, thread.id);
        assert_eq!(last.color, thread.color);
    }

    for stitch in fabric.stitches().iter() {
        if let Some(stitch) = stitch {
            assert_eq!(threads[stitch.thread as usize].color, stitch.color);
        }
    }

    let total: usize = threads.iter().map(|t| t.stitch_count as usize).sum();
    assert_eq!(total, present(fabric));
}

#[test]
fn invariants_of_a_fabric() {
    let image = FakeImage::default();
    let mut dimensions = square_dimensions(&image);

    check_invariants(&Fabric::new(&image, &dimensions).unwrap());

    dimensions.links = vec![
        Link { source: (4, 3), dest: (5, 2) },
        Link { source: (3, 4), dest: (3, 3) },
    ];
    check_invariants(&Fabric::new(&image, &dimensions).unwrap());

    const HOLES: &'static [u8] = b"x##x\
          # x#\
          \x20  x\
          xx##";
    let image = FakeImage::new(HOLES, 4);
    let fabric = Fabric::new(&image, &square_dimensions(&image)).unwrap();
    check_invariants(&fabric);
    assert_eq!(present(&fabric), 10);
    assert!(fabric.stitches()[0].is_none());
    assert!(fabric.stitches()[3].is_none());
}

fn thread_at(fabric: &Fabric, pos: (u16, u16)) -> u32 {
    let x = fabric.n_stitches() - pos.0;
    let y = fabric.n_rows() - pos.1;

    fabric.stitches()[y as usize * fabric.n_stitches() as usize + x as usize]
        .unwrap()
        .thread
}

#[test]
fn linked_stitches_share_a_thread() {
    let image = FakeImage::default();
    let mut dimensions = square_dimensions(&image);

    dimensions.links = vec![
        Link { source: (4, 3), dest: (5, 2) },
        Link { source: (3, 4), dest: (3, 3) },
    ];

    let fabric = Fabric::new(&image, &dimensions).unwrap();

    for link in dimensions.links.iter() {
        assert_eq!(thread_at(&fabric, link.source), thread_at(&fabric, link.dest));
    }

    // Without the links the stitches are on different threads
    dimensions.links.clear();
    let fabric = Fabric::new(&image, &dimensions).unwrap();
    assert_ne!(thread_at(&fabric, (4, 3)), thread_at(&fabric, (5, 2)));
}

#[test]
fn last_of_two_links_with_one_later_end_holds() {
    const IMAGE_DATA: &'static [u8] = b" # \
          # #";
    let image = FakeImage::new(IMAGE_DATA, 3);
    let mut dimensions = square_dimensions(&image);

    dimensions.links = vec![
        Link { source: (2, 2), dest: (1, 1) },
        Link { source: (2, 2), dest: (3, 1) },
    ];

    let fabric = Fabric::new(&image, &dimensions).unwrap();

    assert_eq!(thread_at(&fabric, (2, 2)), thread_at(&fabric, (3, 1)));
    assert_ne!(thread_at(&fabric, (2, 2)), thread_at(&fabric, (1, 1)));
}

#[test]
fn swapped_link_gives_the_same_fabric() {
    let image = FakeImage::default();
    let mut dimensions = square_dimensions(&image);

    dimensions.links = vec![Link { source: (4, 3), dest: (5, 2) }];
    let fabric = Fabric::new(&image, &dimensions).unwrap();

    dimensions.links = vec![Link { source: (5, 2), dest: (4, 3) }];
    let swapped = Fabric::new(&image, &dimensions).unwrap();

    assert_eq!(fabric.threads().len(), swapped.threads().len());
    for (a, b) in fabric.stitches().iter().zip(swapped.stitches().iter()) {
        assert_eq!(a.unwrap().thread, b.unwrap().thread);
        assert_eq!(a.unwrap().color, b.unwrap().color);
    }
    for (a, b) in fabric.threads().iter().zip(swapped.threads().iter()) {
        assert_eq!((a.x, a.y, a.id, a.color, a.stitch_count), (b.x, b.y, b.id, b.color, b.stitch_count));
    }
}

#[test]
fn link_to_different_color() {
    let image = FakeImage::default();
    let mut dimensions = square_dimensions(&image);

    dimensions.links.push(Link { source: (2, 1), dest: (3, 1) });

    assert_eq!(
        Fabric::new(&image, &dimensions).unwrap_err().to_string(),
        "Colors don’t match for link: 2,1->3,1",
    );
}

#[test]
fn link_not_found() {
    let image = FakeImage::default();
    let mut dimensions = square_dimensions(&image);

    // The thread of stitch 1,1 has moved on to stitch 2,1 when stitch
    // 1,2 is knitted
    dimensions.links.push(Link { source: (1, 2), dest: (1, 1) });

    assert_eq!(
        Fabric::new(&image, &dimensions).unwrap_err().to_string(),
        "No thread found for link 1,2->1,1",
    );
}

#[test]
fn link_to_itself_is_not_found() {
    let image = FakeImage::default();
    let mut dimensions = square_dimensions(&image);

    dimensions.links.push(Link { source: (3, 3), dest: (3, 3) });

    assert_eq!(
        Fabric::new(&image, &dimensions).unwrap_err().to_string(),
        "No thread found for link 3,3->3,3",
    );
}

#[test]
fn first_wrong_link_is_reported() {
    let image = FakeImage::default();
    let mut dimensions = square_dimensions(&image);

    dimensions.links = vec![
        Link { source: (1, 1), dest: (2, 1) },
        Link { source: (7, 1), dest: (0, 9) },
        Link { source: (5, 1), dest: (2, 1) },
    ];

    assert_eq!(
        Fabric::new(&image, &dimensions).unwrap_err().to_string(),
        "Position 7,1 is outside of the fabric",
    );

    dimensions.links[1] = Link { source: (6, 6), dest: (6, 7) };

    assert_eq!(
        Fabric::new(&image, &dimensions).unwrap_err().to_string(),
        "Position 6,7 is outside of the fabric",
    );
}

#[test]
fn fabric_from_a_grid() {
    let white = Some([255, 255, 255]);
    let black = Some([0, 0, 0]);
    let grid = Grid {
        colors: vec![white, black, None, black, black, white],
        n_stitches: 3,
        n_rows: 2,
    };

    let fabric = Fabric::from_grid(&grid, &vec![], false).unwrap();

    check_invariants(&fabric);
    assert_eq!(fabric.n_stitches(), 3);
    assert_eq!(fabric.n_rows(), 2);

    let threads = fabric
        .stitches()
        .iter()
        .map(|stitch| stitch.map(|s| s.thread))
        .collect::<Vec<Option<u32>>>();
    assert_eq!(threads, vec![Some(2), Some(1), None, Some(1), Some(1), Some(0)]);

    let thread = &fabric.threads()[1];
    assert_eq!((thread.x, thread.y, thread.stitch_count), (1, 0, 3));
}

#[test]
fn garter_rows_come_in_pairs() {
    const IMAGE_DATA: &'static [u8] = b"# \
          \x20#\
          ##";
    let image = FakeImage::new(IMAGE_DATA, 2);
    let mut dimensions = square_dimensions(&image);
    dimensions.duplicate_rows = 2;

    let fabric = Fabric::new(&image, &dimensions).unwrap();

    assert_eq!(fabric.n_rows(), 3);

    let colors = fabric
        .stitches()
        .iter()
        .map(|stitch| stitch.unwrap().color[0])
        .collect::<Vec<u8>>();
    // The lowest two rows are sampled together, the one above them alone.
    // Where black and white are equally frequent, black wins.
    assert_eq!(colors, vec![0, 255, 0, 0, 0, 0]);
}

fn two_by_two() -> Grid {
    let white = Some([255, 255, 255]);
    let black = Some([0, 0, 0]);

    Grid { colors: vec![white, black, black, black], n_stitches: 2, n_rows: 2 }
}

#[test]
fn find_thread_begins_a_thread_without_a_stitch() {
    let grid = two_by_two();
    let links = LinkMap::new();
    let mut planner = Planner::new(&grid);

    let id = planner.find_thread(&grid, &links, [0, 0, 0], 1, 1).unwrap();

    assert_eq!(id, 0);
    assert_eq!(planner.threads.len(), 1);
    assert_eq!(planner.order, vec![0]);
    let thread = &planner.threads[0];
    assert_eq!((thread.x, thread.y, thread.id, thread.color), (1, 1, 0, [0, 0, 0]));
    assert_eq!(thread.stitch_count, 0);
    assert!(planner.stitches.iter().all(|stitch| stitch.is_none()));

    planner.count_stitch(&grid, id, [0, 0, 0], 1, 1);

    assert_eq!(planner.threads[0].stitch_count, 1);
    assert_eq!((planner.threads[0].x, planner.threads[0].y), (1, 1));
    let stitch = planner.stitches[3].unwrap();
    assert_eq!((stitch.color, stitch.thread), ([0, 0, 0], 0));
    assert!(planner.stitches[0..3].iter().all(|stitch| stitch.is_none()));
}

#[test]
fn find_thread_moves_a_thread_and_keeps_its_count() {
    let grid = two_by_two();
    let links = LinkMap::new();
    let mut planner = Planner::new(&grid);

    for (color, x, y) in [([0, 0, 0], 1, 1), ([9, 9, 9], 0, 1), ([7, 7, 7], 0, 1)] {
        let id = planner.find_thread(&grid, &links, color, x, y).unwrap();
        planner.count_stitch(&grid, id, color, x, y);
        planner.count_stitch(&grid, id, color, x, y);
    }
    assert_eq!(planner.order, vec![0, 1, 2]);
    let stitches = planner.stitches.iter().map(|s| s.map(|s| s.thread)).collect::<Vec<_>>();

    // The black thread is the neighbour of the stitch above its last one
    let id = planner.find_thread(&grid, &links, [0, 0, 0], 1, 0).unwrap();

    assert_eq!(id, 0);
    assert_eq!(planner.threads.len(), 3);
    assert_eq!(planner.order, vec![1, 2, 0]);
    let thread = &planner.threads[0];
    assert_eq!((thread.x, thread.y, thread.id, thread.color), (1, 0, 0, [0, 0, 0]));
    assert_eq!(thread.stitch_count, 2);
    assert_eq!((planner.threads[1].x, planner.threads[1].stitch_count), (0, 2));
    assert_eq!(
        planner.stitches.iter().map(|s| s.map(|s| s.thread)).collect::<Vec<_>>(),
        stitches,
    );
}

#[test]
fn find_thread_without_the_linked_thread_changes_nothing() {
    let grid = two_by_two();
    let mut links = LinkMap::new();
    // The stitch at the top right is bound to the one below it
    links.insert((1, 2), (1, 1));
    let mut planner = Planner::new(&grid);

    // A thread that has its last stitch elsewhere
    let id = planner.find_thread(&grid, &links, [0, 0, 0], 0, 1).unwrap();
    planner.count_stitch(&grid, id, [0, 0, 0], 0, 1);

    let error = planner.find_thread(&grid, &links, [0, 0, 0], 1, 0).unwrap_err();

    assert_eq!(error.to_string(), "No thread found for link 1,2->1,1");
    assert_eq!(planner.threads.len(), 1);
    assert_eq!(planner.order, vec![0]);
    let thread = &planner.threads[0];
    assert_eq!((thread.x, thread.y, thread.stitch_count), (0, 1, 1));
    assert_eq!(planner.stitches.iter().filter(|s| s.is_some()).count(), 1);

    // With the thread at the stitch below, the link takes it up
    let mut planner = Planner::new(&grid);
    let id = planner.find_thread(&grid, &links, [0, 0, 0], 1, 1).unwrap();
    planner.count_stitch(&grid, id, [0, 0, 0], 1, 1);
    let other = planner.find_thread(&grid, &links, [0, 0, 0], 0, 1).unwrap();
    assert_eq!(other, 0);
    planner.count_stitch(&grid, other, [0, 0, 0], 0, 1);
    assert_eq!((planner.threads[0].x, planner.threads[0].y), (0, 1));

    assert!(planner.find_thread(&grid, &links, [0, 0, 0], 1, 0).is_err());
}
