use crate::dimensions::{Dimensions, Link};
use crate::grid::{cell_index, resampled, Grid, GridView};
use crate::links::{
    comes_later, earlier_end, later_end, lemma_link_map_valid, link_error, link_map, valid_pos,
};
use crate::plan::{
    bound_together, ends_at, inv, lemma_sweep_inv, processed, progress, refs, stitch_ok, sweep,
    thread_ok, Links, Planner, Sweep,
};
use crate::stitch_image::{image_view, Color, Image, ImageView};
use crate::text::{decimal, push_decimal};
use vstd::prelude::*;
use vstd::string::StringExecFns;

verus! {

/// One stitch of a fabric: its colour, and the thread it is knitted with.
#[derive(Clone, Copy, Debug)]
pub struct Stitch {
    pub color: Color,
    pub thread: u32,
}

/// A thread, that is a bobbin of yarn of one colour.
#[derive(Clone, Copy, Debug)]
pub struct Thread {
    /// The column of the stitch that was last knitted with the thread,
    /// counted from 0 at the left.
    pub x: u16,
    /// The row of that stitch, counted from 0 at the top.
    pub y: u16,
    /// Threads are numbered from 0 in the order in which they are first used.
    pub id: u32,
    pub color: Color,
    /// The number of stitches that are knitted with the thread.
    pub stitch_count: u32,
}

/// Why a fabric cannot be made.
#[derive(Clone, Copy, Debug)]
pub enum Error {
    /// When the first stitch of the link was to be knitted, no thread had
    /// its last stitch at the other.
    LinkNotFound(Link),
    /// The ends of the link are too far apart.
    LinkTooFar(Link),
    /// The ends of the link have different colours.
    LinkToDifferentColor(Link),
    /// A link names a position that holds no stitch.
    PosOutsideOfFabric(u16, u16),
}

impl Error {
    /// The error in words.
    pub open spec fn text(self) -> Seq<char> {
        match self {
            Error::LinkNotFound(link) => "No thread found for link "@ + link.text(),
            Error::LinkTooFar(link) => "Link is too far: "@ + link.text(),
            Error::LinkToDifferentColor(link) => "Colors don’t match for link: "@ + link.text(),
            Error::PosOutsideOfFabric(x, y) => "Position "@ + decimal(x as nat) + ","@ + decimal(
                y as nat,
            ) + " is outside of the fabric"@,
        }
    }

    /// The error in words.
    pub fn to_string(&self) -> (s: String)
        ensures
            s@ == self.text(),
    {
        match self {
            Error::LinkNotFound(link) => {
                let mut s = String::from_str("No thread found for link ");
                s.append(link.to_string().as_str());
                s
            },
            Error::LinkTooFar(link) => {
                let mut s = String::from_str("Link is too far: ");
                s.append(link.to_string().as_str());
                s
            },
            Error::LinkToDifferentColor(link) => {
                let mut s = String::from_str("Colors don’t match for link: ");
                s.append(link.to_string().as_str());
                s
            },
            Error::PosOutsideOfFabric(x, y) => {
                let mut s = String::from_str("Position ");
                push_decimal(&mut s, *x as u128);
                s.append(",");
                push_decimal(&mut s, *y as u128);
                s.append(" is outside of the fabric");
                s
            },
        }
    }
}

/// A fabric: its stitches row after row from the top, each row from the
/// left, and its threads by their numbers.
#[derive(Debug)]
pub struct Fabric {
    stitches: Vec<Option<Stitch>>,
    n_stitches: u16,
    n_rows: u16,
    threads: Vec<Thread>,
}

/// A fabric as a mathematical value.
pub struct FabricView {
    pub n_stitches: int,
    pub n_rows: int,
    pub stitches: Seq<Option<Stitch>>,
    pub threads: Seq<Thread>,
}

/// The number of places that hold a stitch.
pub open spec fn present(stitches: Seq<Option<Stitch>>) -> nat
    decreases stitches.len(),
{
    if stitches.len() == 0 {
        0
    } else {
        present(stitches.drop_last()) + if stitches.last() is Some {
            1nat
        } else {
            0nat
        }
    }
}

/// The sum of the stitch counts of the threads.
pub open spec fn total_stitches(threads: Seq<Thread>) -> nat
    decreases threads.len(),
{
    if threads.len() == 0 {
        0
    } else {
        total_stitches(threads.drop_last()) + threads.last().stitch_count as nat
    }
}

/// The number of stitches that are knitted with one of the threads below `n`.
pub open spec fn refs_below(stitches: Seq<Option<Stitch>>, n: int) -> nat
    decreases n,
{
    if n <= 0 {
        0
    } else {
        refs_below(stitches, n - 1) + refs(stitches, n - 1)
    }
}

impl FabricView {
    /// What holds of every fabric.
    pub open spec fn wf(self) -> bool {
        &&& 0 <= self.n_stitches <= u16::MAX
        &&& 0 <= self.n_rows <= u16::MAX
        &&& self.stitches.len() == self.n_rows * self.n_stitches
        &&& self.threads.len() <= self.stitches.len()
        // The threads stand in the order of their numbers, which begin at 0.
        &&& forall|i: int| 0 <= i < self.threads.len() ==> (#[trigger] self.threads[i]).id == i
        // Each stitch has the colour of its thread.
        &&& forall|i: int|
            0 <= i < self.stitches.len() ==> (#[trigger] self.stitches[i] matches Some(st) ==> {
                &&& st.thread < self.threads.len()
                &&& self.threads[st.thread as int].color == st.color
            })
        // Each thread has counted the stitches that are knitted with it:
        // there is at least one, and the thread is at the last of them.
        &&& forall|i: int|
            0 <= i < self.threads.len() ==> {
                let t = #[trigger] self.threads[i];
                &&& t.stitch_count == refs(self.stitches, i)
                &&& t.stitch_count >= 1
                &&& 0 <= t.x < self.n_stitches
                &&& 0 <= t.y < self.n_rows
                &&& self.stitches[cell_index(self.n_stitches, t.x as int, t.y as int)] == Some(
                    Stitch { color: t.color, thread: t.id },
                )
                &&& ends_at(self.grid(), self.stitches, i, t.x as int, t.y as int)
            }
        // The threads have as many stitches as the fabric has.
        &&& total_stitches(self.threads) == present(self.stitches)
    }

    /// The grid of the fabric's colours.
    pub open spec fn grid(self) -> GridView {
        GridView {
            n_stitches: self.n_stitches,
            n_rows: self.n_rows,
            colors: Seq::new(
                self.stitches.len(),
                |i: int|
                    match self.stitches[i] {
                        Some(st) => Some(st.color),
                        None => None,
                    },
            ),
        }
    }
}

/// The fabric that a sweep leaves.
pub open spec fn fabric_of(g: GridView, s: Sweep) -> FabricView {
    FabricView {
        n_stitches: g.n_stitches,
        n_rows: g.n_rows,
        stitches: s.stitches,
        threads: s.threads,
    }
}

/// The fabric of a grid of colours and a list of links, or the reason why
/// there is none: the error of the first link with which something is
/// wrong, or else that of the first stitch that cannot be knitted.
pub open spec fn plan(g: GridView, links: Seq<Link>, allow_link_gaps: bool) -> Result<
    FabricView,
    Error,
> {
    match link_map(g, allow_link_gaps, links) {
        Err(e) => Err(e),
        Ok(map) => match sweep(g, map) {
            Err(e) => Err(e),
            Ok(s) => Ok(fabric_of(g, s)),
        },
    }
}

/// The fabric of an image.
pub open spec fn build(img: ImageView, d: Dimensions) -> Result<FabricView, Error> {
    plan(resampled(img, d), d.links@, d.allow_link_gaps)
}

/// A stitch more in a fabric is a stitch more for one of the threads
/// below `n`, if its thread is one of them.
proof fn lemma_refs_below_last(stitches: Seq<Option<Stitch>>, n: int)
    requires
        stitches.len() > 0,
        n >= 0,
    ensures
        refs_below(stitches, n) == refs_below(stitches.drop_last(), n) + if stitches.last() matches Some(
            st,
        ) && st.thread < n {
            1nat
        } else {
            0nat
        },
    decreases n,
{
    if n > 0 {
        lemma_refs_below_last(stitches, n - 1);
    }
}

/// Where every stitch is knitted with one of the threads below `n`, those
/// threads have all the stitches.
proof fn lemma_refs_below(stitches: Seq<Option<Stitch>>, n: int)
    requires
        n >= 0,
        forall|i: int|
            0 <= i < stitches.len() ==> (#[trigger] stitches[i] matches Some(st) ==> st.thread
                < n),
    ensures
        refs_below(stitches, n) == present(stitches),
    decreases stitches.len(),
{
    if stitches.len() == 0 {
        lemma_refs_below_empty(stitches, n);
    } else {
        let front = stitches.drop_last();
        assert forall|i: int| 0 <= i < front.len() implies (#[trigger] front[i] matches Some(st)
            ==> st.thread < n) by {
            assert(front[i] == stitches[i]);
        }
        lemma_refs_below(front, n);
        lemma_refs_below_last(stitches, n);
        assert(stitches.last() == stitches[stitches.len() - 1]);
    }
}

/// Without stitches no thread has any.
proof fn lemma_refs_below_empty(stitches: Seq<Option<Stitch>>, n: int)
    requires
        stitches.len() == 0,
    ensures
        refs_below(stitches, n) == 0,
    decreases n,
{
    if n > 0 {
        lemma_refs_below_empty(stitches, n - 1);
    }
}

/// Threads that have counted their stitches have counted, together, the
/// stitches of the threads below their number.
proof fn lemma_total_stitches(threads: Seq<Thread>, stitches: Seq<Option<Stitch>>, n: int)
    requires
        0 <= n <= threads.len(),
        forall|i: int|
            0 <= i < threads.len() ==> (#[trigger] threads[i]).stitch_count == refs(stitches, i),
    ensures
        total_stitches(threads.take(n)) == refs_below(stitches, n),
    decreases n,
{
    if n > 0 {
        lemma_total_stitches(threads, stitches, n - 1);
        assert(threads.take(n).drop_last() =~= threads.take(n - 1));
        assert(threads.take(n).last() == threads[n - 1]);
    }
}

/// What holds of the state in which a sweep ends makes a fabric.
pub proof fn lemma_fabric_wf(g: GridView, links: Links, s: Sweep)
    requires
        g.wf(),
        inv(g, links, s, g.n_rows, 0),
    ensures
        fabric_of(g, s).wf(),
        fabric_of(g, s).grid() == g,
{
    let f = fabric_of(g, s);
    let done = progress(g, g.n_rows, 0);
    assert(done == g.n_rows * g.n_stitches);
    assert forall|i: int| 0 <= i < f.stitches.len() implies (#[trigger] f.stitches[i] matches Some(
        st,
    ) ==> {
        &&& st.thread < f.threads.len()
        &&& f.threads[st.thread as int].color == st.color
    }) by {
        assert(stitch_ok(g, s, i));
    }
    assert forall|i: int| 0 <= i < f.threads.len() implies {
        let t = #[trigger] f.threads[i];
        &&& t.id == i
        &&& t.stitch_count == refs(f.stitches, i)
        &&& t.stitch_count >= 1
        &&& 0 <= t.x < f.n_stitches
        &&& 0 <= t.y < f.n_rows
        &&& f.stitches[cell_index(f.n_stitches, t.x as int, t.y as int)] == Some(
            Stitch { color: t.color, thread: t.id },
        )
        &&& ends_at(g, f.stitches, i, t.x as int, t.y as int)
    } by {
        assert(thread_ok(g, s, s.threads[i], i, done));
    }
    assert forall|i: int| 0 <= i < f.stitches.len() implies (#[trigger] f.stitches[i] matches Some(
        st,
    ) ==> st.thread < f.threads.len()) by {
        assert(stitch_ok(g, s, i));
    }
    lemma_refs_below(f.stitches, f.threads.len() as int);
    lemma_total_stitches(f.threads, f.stitches, f.threads.len() as int);
    assert(f.threads.take(f.threads.len() as int) =~= f.threads);
    assert forall|i: int| 0 <= i < g.colors.len() implies #[trigger] f.grid().colors[i]
        == g.colors[i] by {
        crate::grid::lemma_cell_of_index(g.n_stitches, g.n_rows, i);
        let x = i % g.n_stitches;
        let y = i / g.n_stitches;
        assert(s.stitches[cell_index(g.n_stitches, x, y)] is Some <==> (processed(
            g,
            g.n_rows,
            0,
            x,
            y,
        ) && g.at(x, y) is Some));
        assert(stitch_ok(g, s, i));
    }
    assert(f.grid().colors =~= g.colors);
}

/// Every fabric that is planned is one of which `wf` holds: each stitch
/// has the colour of its thread, the threads have counted their stitches,
/// and they stand in the order of their numbers. It has a stitch where
/// the grid has a colour, and of that colour.
pub proof fn lemma_planned_fabric(g: GridView, links: Seq<Link>, allow_link_gaps: bool)
    requires
        g.wf(),
    ensures
        plan(g, links, allow_link_gaps) matches Ok(fabric) ==> fabric.wf() && fabric.grid() == g,
{
    if let Ok(map) = link_map(g, allow_link_gaps, links) {
        lemma_link_map_valid(g, allow_link_gaps, links);
        lemma_sweep_inv(g, map, g.n_rows, 0);
        if let Ok(s) = sweep(g, map) {
            lemma_fabric_wf(g, map, s);
        }
    }
}

/// In the fabric every stitch that the link map binds is knitted with the
/// thread of the stitch it is bound to.
pub proof fn lemma_bindings_hold(g: GridView, links: Seq<Link>, allow_link_gaps: bool)
    requires
        g.wf(),
        plan(g, links, allow_link_gaps) is Ok,
    ensures
        ({
            let map = link_map(g, allow_link_gaps, links)->Ok_0;
            let fabric = plan(g, links, allow_link_gaps)->Ok_0;
            forall|pos: (u16, u16)| #[trigger]
                map.contains_key(pos) ==> bound_together(g, fabric.stitches, pos, map[pos])
        }),
{
    let map = link_map(g, allow_link_gaps, links)->Ok_0;
    let s = sweep(g, map)->Ok_0;
    lemma_link_map_valid(g, allow_link_gaps, links);
    lemma_sweep_inv(g, map, g.n_rows, 0);
    assert forall|pos: (u16, u16)| #[trigger] map.contains_key(pos) implies bound_together(
        g,
        s.stitches,
        pos,
        map[pos],
    ) by {
        assert(valid_pos(g, pos));
        assert(processed(g, g.n_rows, 0, g.n_stitches - pos.0, g.n_rows - pos.1));
    }
}

/// The map of a list of links binds the later end of a link to its
/// earlier end, unless a link further on in the list has the same later end.
pub proof fn lemma_binding_of_link(g: GridView, links: Seq<Link>, allow_link_gaps: bool, i: int)
    requires
        0 <= i < links.len(),
        link_map(g, allow_link_gaps, links) is Ok,
        forall|j: int| i < j < links.len() ==> later_end(#[trigger] links[j]) != later_end(links[i]),
    ensures
        ({
            let map = link_map(g, allow_link_gaps, links)->Ok_0;
            map.contains_key(later_end(links[i])) && map[later_end(links[i])] == earlier_end(
                links[i],
            )
        }),
    decreases links.len(),
{
    if i < links.len() - 1 {
        let front = links.drop_last();
        assert(front[i] == links[i]);
        assert forall|j: int| i < j < front.len() implies later_end(#[trigger] front[j])
            != later_end(front[i]) by {
            assert(front[j] == links[j]);
        }
        lemma_binding_of_link(g, front, allow_link_gaps, i);
        assert(later_end(links[links.len() - 1]) != later_end(links[i]));
    }
}

/// The two stitches of a link are knitted with the same thread in the
/// fabric that was made with the link, unless a link further on in the
/// list binds the same stitch: of two links with one later end only the
/// last one holds.
pub proof fn lemma_link_shares_thread(
    g: GridView,
    links: Seq<Link>,
    allow_link_gaps: bool,
    i: int,
)
    requires
        g.wf(),
        0 <= i < links.len(),
        plan(g, links, allow_link_gaps) is Ok,
        forall|j: int| i < j < links.len() ==> later_end(#[trigger] links[j]) != later_end(links[i]),
    ensures
        bound_together(
            g,
            plan(g, links, allow_link_gaps)->Ok_0.stitches,
            links[i].source,
            links[i].dest,
        ),
{
    lemma_bindings_hold(g, links, allow_link_gaps);
    lemma_binding_of_link(g, links, allow_link_gaps, i);
    let map = link_map(g, allow_link_gaps, links)->Ok_0;
    assert(map.contains_key(later_end(links[i])));
}

/// A link with its ends exchanged is wrong if and only if the link is,
/// and it binds the same stitch to the same stitch.
pub proof fn lemma_swapped_link(g: GridView, allow_link_gaps: bool, link: Link)
    ensures
        link_error(g, allow_link_gaps, link.swapped()) is Some <==> link_error(
            g,
            allow_link_gaps,
            link,
        ) is Some,
        later_end(link.swapped()) == later_end(link),
        earlier_end(link.swapped()) == earlier_end(link),
{
    if !comes_later(link.source, link.dest) && !comes_later(link.dest, link.source) {
        assert(link.source == link.dest);
    }
}

/// The map of a list of links stays the same when the ends of one link
/// are exchanged.
pub proof fn lemma_swapped_link_map(g: GridView, links: Seq<Link>, allow_link_gaps: bool, i: int)
    requires
        0 <= i < links.len(),
    ensures
        ({
            let swapped = links.update(i, links[i].swapped());
            let before = link_map(g, allow_link_gaps, links);
            let after = link_map(g, allow_link_gaps, swapped);
            &&& before is Ok <==> after is Ok
            &&& before is Ok ==> after == before
        }),
    decreases links.len(),
{
    let swapped = links.update(i, links[i].swapped());
    lemma_swapped_link(g, allow_link_gaps, links[i]);
    if i < links.len() - 1 {
        assert(swapped.drop_last() =~= links.drop_last().update(i, links[i].swapped()));
        assert(links.drop_last()[i] == links[i]);
        lemma_swapped_link_map(g, links.drop_last(), allow_link_gaps, i);
    } else {
        assert(swapped.drop_last() =~= links.drop_last());
    }
}

/// To exchange the two ends of a link changes nothing in the fabric. Where
/// there is no fabric with the link, there is none with its ends exchanged.
pub proof fn lemma_swap_link(g: GridView, links: Seq<Link>, allow_link_gaps: bool, i: int)
    requires
        0 <= i < links.len(),
    ensures
        ({
            let swapped = links.update(i, links[i].swapped());
            let before = plan(g, links, allow_link_gaps);
            let after = plan(g, swapped, allow_link_gaps);
            &&& before is Ok <==> after is Ok
            &&& before is Ok ==> after == before
        }),
{
    lemma_swapped_link_map(g, links, allow_link_gaps, i);
}

impl View for Fabric {
    type V = FabricView;

    closed spec fn view(&self) -> FabricView {
        FabricView {
            n_stitches: self.n_stitches as int,
            n_rows: self.n_rows as int,
            stitches: self.stitches@,
            threads: self.threads@,
        }
    }
}

impl Fabric {
    #[verifier::type_invariant]
    spec fn well_formed(self) -> bool {
        self@.wf()
    }

    /// Resamples the image to a grid of `dimensions.stitches` stitches a
    /// row, checks the links and gives each stitch its thread.
    pub fn new<I: Image>(image: &I, dimensions: &Dimensions) -> (result: Result<Fabric, Error>)
        requires
            dimensions.wf(),
        ensures
            match result {
                Ok(fabric) => build(image_view(image), *dimensions) == Ok::<FabricView, Error>(
                    fabric@,
                ) && fabric@.wf(),
                Err(e) => build(image_view(image), *dimensions) == Err::<FabricView, Error>(e),
            },
    {
        let grid = Grid::resample(image, dimensions);
        Fabric::from_grid(&grid, &dimensions.links, dimensions.allow_link_gaps)
    }

    /// The fabric of a grid of colours: checks the links and gives each
    /// stitch its thread.
    pub fn from_grid(grid: &Grid, links: &Vec<Link>, allow_link_gaps: bool) -> (result: Result<
        Fabric,
        Error,
    >)
        requires
            grid@.wf(),
        ensures
            match result {
                Ok(fabric) => plan(grid@, links@, allow_link_gaps) == Ok::<FabricView, Error>(
                    fabric@,
                ) && fabric@.wf() && fabric@.grid() == grid@,
                Err(e) => plan(grid@, links@, allow_link_gaps) == Err::<FabricView, Error>(e),
            },
    {
        let map = match grid.links_to_hash(links, allow_link_gaps) {
            Ok(map) => map,
            Err(e) => {
                return Err(e);
            },
        };
        proof {
            lemma_link_map_valid(grid@, allow_link_gaps, links@);
        }
        let planner = match Planner::calculate_threads(grid, &map) {
            Ok(planner) => planner,
            Err(e) => {
                return Err(e);
            },
        };
        proof {
            lemma_planned_fabric(grid@, links@, allow_link_gaps);
        }
        Ok(
            Fabric {
                stitches: planner.stitches,
                n_stitches: grid.n_stitches,
                n_rows: grid.n_rows,
                threads: planner.threads,
            },
        )
    }

    /// The threads, in the order of their numbers.
    pub fn threads(&self) -> (threads: &[Thread])
        ensures
            threads@ == self@.threads,
            self@.wf(),
    {
        proof {
            use_type_invariant(self);
        }
        self.threads.as_slice()
    }

    /// The stitches, row after row from the top, each row from the left.
    pub fn stitches(&self) -> (stitches: &[Option<Stitch>])
        ensures
            stitches@ == self@.stitches,
            self@.wf(),
    {
        proof {
            use_type_invariant(self);
        }
        self.stitches.as_slice()
    }

    /// The number of stitches in a row.
    pub fn n_stitches(&self) -> (n: u16)
        ensures
            n == self@.n_stitches,
            self@.wf(),
    {
        proof {
            use_type_invariant(self);
        }
        self.n_stitches
    }

    /// The number of rows.
    pub fn n_rows(&self) -> (n: u16)
        ensures
            n == self@.n_rows,
            self@.wf(),
    {
        proof {
            use_type_invariant(self);
        }
        self.n_rows
    }
}

} // verus!
