use crate::dimensions::Link;
use crate::fabric::{Error, Stitch, Thread};
use crate::grid::{cell_index, lemma_cell_index, Grid, GridView};
use crate::links::{color_at, distance, links_valid, valid_pos, LinkMap, MAX_ROW_GAP, MAX_STITCH_GAP};
use crate::stitch_image::{same_color, Color};
use vstd::prelude::*;

verus! {

/// The state of the sweep that gives each stitch its thread.
///
/// `threads[id]` is the thread with the number `id`. `order` holds the
/// numbers of the threads from the one that was used longest ago to the
/// one that was used last. `stitches` holds the stitches that are knitted
/// already, each at its place in the grid.
pub struct Sweep {
    pub threads: Seq<Thread>,
    pub order: Seq<u32>,
    pub stitches: Seq<Option<Stitch>>,
}

/// The bindings of the links: see `link_map`.
pub type Links = Map<(u16, u16), (u16, u16)>;

/// The state before the first stitch.
pub open spec fn start(g: GridView) -> Sweep {
    Sweep {
        threads: Seq::empty(),
        order: Seq::empty(),
        stitches: Seq::new(g.colors.len(), |i: int| None),
    }
}

/// The first place in `order`, from `from` on, of a thread whose last
/// stitch is at `(x, y)`.
pub open spec fn find_at(s: Sweep, x: int, y: int, from: int) -> Option<int>
    decreases s.order.len() - from,
{
    if from >= s.order.len() {
        None
    } else {
        let t = s.threads[s.order[from] as int];
        if t.x == x && t.y == y {
            Some(from)
        } else {
            find_at(s, x, y, from + 1)
        }
    }
}

/// The place in `order`, below `upto`, of the thread that a stitch of the
/// colour `color` at `(x, y)` takes over from a neighbour: of the threads
/// of that colour whose last stitch is no more than `MAX_STITCH_GAP`
/// columns away, the one that was used last. The search goes back from
/// the thread that was used last, and it ends at the first thread whose
/// last stitch is more than `MAX_ROW_GAP` rows below.
pub open spec fn find_neighbor(s: Sweep, color: Color, x: int, y: int, upto: int) -> Option<int>
    decreases upto,
{
    if upto <= 0 {
        None
    } else {
        let t = s.threads[s.order[upto - 1] as int];
        if t.y - y > MAX_ROW_GAP {
            None
        } else if t.color == color && distance(t.x as int, x) <= MAX_STITCH_GAP {
            Some(upto - 1)
        } else {
            find_neighbor(s, color, x, y, upto - 1)
        }
    }
}

/// The position of the place `(x, y)` as links name it.
pub open spec fn user_pos(g: GridView, x: int, y: int) -> (u16, u16) {
    ((g.n_stitches - x) as u16, (g.n_rows - y) as u16)
}

/// The place in `order` of the thread to which a link binds the stitch at
/// `(x, y)`: the thread whose last stitch is the one that the stitch is
/// bound to. `None` where no link binds the stitch, and an error where one
/// does and there is no such thread.
pub open spec fn linked_thread(g: GridView, links: Links, s: Sweep, x: int, y: int) -> Result<
    Option<int>,
    Error,
> {
    let source = user_pos(g, x, y);
    if links.contains_key(source) {
        let dest = links[source];
        match find_at(s, g.n_stitches - dest.0, g.n_rows - dest.1, 0) {
            Some(k) => Ok(Some(k)),
            None => Err(Error::LinkNotFound(Link { source, dest })),
        }
    } else {
        Ok(None)
    }
}

/// The place in `order` of the thread that the stitch at `(x, y)` takes
/// up, or `None` where it begins a new thread. A stitch that a link binds
/// takes the thread it is bound to. Any other stitch takes a thread from
/// a neighbour if it can.
pub open spec fn find_thread(g: GridView, links: Links, s: Sweep, color: Color, x: int, y: int)
    -> Result<Option<int>, Error> {
    match linked_thread(g, links, s, x, y) {
        Ok(None) => Ok(find_neighbor(s, color, x, y, s.order.len() as int)),
        linked => linked,
    }
}

/// The number of the thread at the place `found` of `order`, or that of
/// a new thread: the number of threads that there are.
pub open spec fn chosen(s: Sweep, found: Option<int>) -> u32 {
    match found {
        Some(k) => s.order[k],
        None => s.threads.len() as u32,
    }
}

/// The state after the thread at the place `found` of `order` is taken
/// up for a stitch of the colour `color` at `(x, y)`: the thread moves on
/// to `(x, y)` and to the end of `order`, and the other threads keep
/// their places among each other. Where `found` is `None`, a new thread
/// of the colour begins at `(x, y)`, without a stitch yet, and it comes
/// last in `order`. No stitch is knitted.
pub open spec fn take_up(s: Sweep, found: Option<int>, color: Color, x: int, y: int) -> Sweep {
    match found {
        Some(k) => {
            let id = s.order[k];
            let t = s.threads[id as int];
            Sweep {
                threads: s.threads.update(
                    id as int,
                    Thread {
                        x: x as u16,
                        y: y as u16,
                        id: t.id,
                        color: t.color,
                        stitch_count: t.stitch_count,
                    },
                ),
                order: s.order.remove(k).push(id),
                stitches: s.stitches,
            }
        },
        None => {
            let id = s.threads.len() as u32;
            Sweep {
                threads: s.threads.push(
                    Thread { x: x as u16, y: y as u16, id, color, stitch_count: 0 },
                ),
                order: s.order.push(id),
                stitches: s.stitches,
            }
        },
    }
}

/// The state after a stitch of the colour `color` is knitted with the
/// thread `id` at the place `index` of the grid: the thread has one
/// stitch more, and the stitch names the thread.
pub open spec fn stitched(s: Sweep, id: u32, color: Color, index: int) -> Sweep {
    let t = s.threads[id as int];
    Sweep {
        threads: s.threads.update(
            id as int,
            Thread {
                x: t.x,
                y: t.y,
                id: t.id,
                color: t.color,
                stitch_count: (t.stitch_count + 1) as u32,
            },
        ),
        order: s.order,
        stitches: s.stitches.update(index, Some(Stitch { color, thread: id })),
    }
}

/// The state after the stitch of colour `color` at `(x, y)` is knitted
/// with the thread at the place `found` of `order`, or with a new thread:
/// the thread is taken up, and then the stitch is knitted with it.
pub open spec fn knit(s: Sweep, found: Option<int>, color: Color, x: int, y: int, index: int)
    -> Sweep {
    stitched(take_up(s, found, color, x, y), chosen(s, found), color, index)
}

/// The state after the place `(x, y)`: unchanged where the place holds no
/// stitch.
pub open spec fn step(g: GridView, links: Links, s: Sweep, x: int, y: int) -> Result<
    Sweep,
    Error,
> {
    match g.at(x, y) {
        None => Ok(s),
        Some(color) => match find_thread(g, links, s, color, x, y) {
            Err(e) => Err(e),
            Ok(found) => Ok(knit(s, found, color, x, y, cell_index(g.n_stitches, x, y))),
        },
    }
}

/// The column of the stitch that is knitted as number `j` of its row, in
/// the row number `r` from the bottom, both counted from 0. The lowest
/// row and every second row above it are knitted from right to left.
pub open spec fn knit_x(g: GridView, r: int, j: int) -> int {
    if r % 2 == 0 {
        g.n_stitches - 1 - j
    } else {
        j
    }
}

/// The row number `r` from the bottom, counted from the top.
pub open spec fn knit_y(g: GridView, r: int) -> int {
    g.n_rows - 1 - r
}

/// The number of the row `y` from the bottom.
pub open spec fn row_of(g: GridView, y: int) -> int {
    g.n_rows - 1 - y
}

/// The number of the place `(x, y)` in its row, in the order of knitting.
pub open spec fn place_of(g: GridView, x: int, y: int) -> int {
    if row_of(g, y) % 2 == 0 {
        g.n_stitches - 1 - x
    } else {
        x
    }
}

/// The state after the `r` lowest rows and the first `j` places of the
/// row above them, or the error of the first place that has one.
pub open spec fn row_sweep(g: GridView, links: Links, r: int, j: int) -> Result<Sweep, Error>
    decreases r, j,
{
    if j <= 0 {
        if r <= 0 {
            Ok(start(g))
        } else {
            row_sweep(g, links, r - 1, g.n_stitches)
        }
    } else {
        match row_sweep(g, links, r, j - 1) {
            Err(e) => Err(e),
            Ok(s) => step(g, links, s, knit_x(g, r, j - 1), knit_y(g, r)),
        }
    }
}

/// The state after the last stitch.
pub open spec fn sweep(g: GridView, links: Links) -> Result<Sweep, Error> {
    row_sweep(g, links, g.n_rows, 0)
}

/// The place `(x, y)` is among the `r` lowest rows or the first `j`
/// places of the row above them.
pub open spec fn processed(g: GridView, r: int, j: int, x: int, y: int) -> bool {
    y > g.n_rows - 1 - r || (y == g.n_rows - 1 - r && if r % 2 == 0 {
        x >= g.n_stitches - j
    } else {
        x < j
    })
}

/// The number of places in the `r` lowest rows and the first `j` of the next.
pub open spec fn progress(g: GridView, r: int, j: int) -> int {
    r * g.n_stitches + j
}

/// The number of stitches that are knitted with the thread `id`.
pub open spec fn refs(stitches: Seq<Option<Stitch>>, id: int) -> nat
    decreases stitches.len(),
{
    if stitches.len() == 0 {
        0
    } else {
        refs(stitches.drop_last(), id) + if stitches.last() matches Some(st) && st.thread == id {
            1nat
        } else {
            0nat
        }
    }
}

/// The stitch at a link's position.
pub open spec fn stitch_at(g: GridView, stitches: Seq<Option<Stitch>>, pos: (u16, u16)) -> Option<
    Stitch,
> {
    stitches[cell_index(g.n_stitches, g.n_stitches - pos.0, g.n_rows - pos.1)]
}

/// The stitches at the two positions are knitted with the same thread.
pub open spec fn bound_together(
    g: GridView,
    stitches: Seq<Option<Stitch>>,
    a: (u16, u16),
    b: (u16, u16),
) -> bool {
    &&& stitch_at(g, stitches, a) matches Some(first)
    &&& stitch_at(g, stitches, b) matches Some(second)
    &&& first.thread == second.thread
}

/// The stitch at `(x, y)` is knitted no later than the one at `(lx, ly)`.
pub open spec fn not_after(g: GridView, x: int, y: int, lx: int, ly: int) -> bool {
    y > ly || (y == ly && place_of(g, x, y) <= place_of(g, lx, ly))
}

/// None of the stitches that are knitted with the thread `id` is knitted
/// after the one at `(lx, ly)`.
pub open spec fn ends_at(g: GridView, stitches: Seq<Option<Stitch>>, id: int, lx: int, ly: int)
    -> bool {
    forall|x: int, y: int|
        g.contains(x, y) ==> (stitches[#[trigger] cell_index(g.n_stitches, x, y)] matches Some(st)
            ==> st.thread == id ==> not_after(g, x, y, lx, ly))
}

/// What holds of the thread `t` with the number `id`: its last stitch is
/// one of its own and the last of them, and it has counted its stitches.
pub open spec fn thread_ok(g: GridView, s: Sweep, t: Thread, id: int, done: int) -> bool {
    &&& t.id == id
    &&& g.contains(t.x as int, t.y as int)
    &&& s.stitches[cell_index(g.n_stitches, t.x as int, t.y as int)] == Some(
        Stitch { color: t.color, thread: id as u32 },
    )
    &&& ends_at(g, s.stitches, id, t.x as int, t.y as int)
    &&& t.stitch_count == refs(s.stitches, id)
    &&& 1 <= t.stitch_count <= done
}

/// What holds of a stitch in a sweep: it has the colour of its place, and
/// its thread has that colour too.
pub open spec fn stitch_ok(g: GridView, s: Sweep, i: int) -> bool {
    s.stitches[i] matches Some(st) ==> {
        &&& g.colors[i] == Some(st.color)
        &&& st.thread < s.threads.len()
        &&& s.threads[st.thread as int].color == st.color
    }
}

/// What holds of the sweep after the `r` lowest rows and the first `j`
/// places of the next.
pub open spec fn inv(g: GridView, links: Links, s: Sweep, r: int, j: int) -> bool {
    &&& s.stitches.len() == g.colors.len()
    &&& s.threads.len() <= progress(g, r, j)
    &&& forall|x: int, y: int|
        g.contains(x, y) ==> (s.stitches[#[trigger] cell_index(g.n_stitches, x, y)] is Some <==> (
        processed(g, r, j, x, y) && g.at(x, y) is Some))
    &&& forall|i: int| 0 <= i < s.stitches.len() ==> #[trigger] stitch_ok(g, s, i)
    &&& forall|id: int|
        0 <= id < s.threads.len() ==> thread_ok(
            g,
            s,
            #[trigger] s.threads[id],
            id,
            progress(g, r, j),
        )
    &&& forall|k: int| 0 <= k < s.order.len() ==> #[trigger] s.order[k] < s.threads.len()
    &&& forall|pos: (u16, u16)|
        (#[trigger] links.contains_key(pos)) && processed(
            g,
            r,
            j,
            g.n_stitches - pos.0,
            g.n_rows - pos.1,
        ) ==> bound_together(g, s.stitches, pos, links[pos])
}

/// A stitch that is knitted where none was adds one to the stitches of
/// its thread and nothing to those of any other.
pub proof fn lemma_refs_update(stitches: Seq<Option<Stitch>>, i: int, st: Stitch, id: int)
    requires
        0 <= i < stitches.len(),
        stitches[i] is None,
    ensures
        refs(stitches.update(i, Some(st)), id) == refs(stitches, id) + if st.thread == id {
            1nat
        } else {
            0nat
        },
    decreases stitches.len(),
{
    let after = stitches.update(i, Some(st));
    if i == stitches.len() - 1 {
        assert(after.drop_last() =~= stitches.drop_last());
    } else {
        assert(after.drop_last() =~= stitches.drop_last().update(i, Some(st)));
        lemma_refs_update(stitches.drop_last(), i, st, id);
    }
}

/// A thread that no stitch names has no stitches.
pub proof fn lemma_refs_none(stitches: Seq<Option<Stitch>>, id: int)
    requires
        forall|i: int|
            0 <= i < stitches.len() ==> (#[trigger] stitches[i] matches Some(st) ==> st.thread
                != id),
    ensures
        refs(stitches, id) == 0,
    decreases stitches.len(),
{
    if stitches.len() > 0 {
        assert(stitches.drop_last().len() == stitches.len() - 1);
        assert forall|i: int| 0 <= i < stitches.drop_last().len() implies (
        #[trigger] stitches.drop_last()[i] matches Some(st) ==> st.thread != id) by {
            assert(stitches.drop_last()[i] == stitches[i]);
        }
        lemma_refs_none(stitches.drop_last(), id);
        assert(stitches.last() == stitches[stitches.len() - 1]);
    }
}

/// What `find_at` finds is a thread at the place that was asked for.
pub proof fn lemma_find_at(s: Sweep, x: int, y: int, from: int)
    requires
        0 <= from,
    ensures
        find_at(s, x, y, from) matches Some(k) ==> {
            &&& from <= k < s.order.len()
            &&& s.threads[s.order[k] as int].x == x
            &&& s.threads[s.order[k] as int].y == y
        },
    decreases s.order.len() - from,
{
    if from < s.order.len() {
        lemma_find_at(s, x, y, from + 1);
    }
}

/// What `find_neighbor` finds is a thread of the colour that was asked for.
pub proof fn lemma_find_neighbor(s: Sweep, color: Color, x: int, y: int, upto: int)
    requires
        upto <= s.order.len(),
    ensures
        find_neighbor(s, color, x, y, upto) matches Some(k) ==> {
            &&& 0 <= k < upto
            &&& s.threads[s.order[k] as int].color == color
        },
    decreases upto,
{
    if upto > 0 {
        lemma_find_neighbor(s, color, x, y, upto - 1);
    }
}

/// The sweep begins in a state of which `inv` holds.
pub proof fn lemma_start_inv(g: GridView, links: Links)
    requires
        g.wf(),
        links_valid(g, links),
    ensures
        inv(g, links, start(g), 0, 0),
{
    let s = start(g);
    assert(0 * g.n_stitches == 0);
    assert forall|x: int, y: int| g.contains(x, y) implies (s.stitches[#[trigger] cell_index(
        g.n_stitches,
        x,
        y,
    )] is Some <==> (processed(g, 0, 0, x, y) && g.at(x, y) is Some)) by {
        lemma_cell_index(g.n_stitches, g.n_rows, x, y);
    }
    assert forall|pos: (u16, u16)|
        (#[trigger] links.contains_key(pos)) && processed(
            g,
            0,
            0,
            g.n_stitches - pos.0,
            g.n_rows - pos.1,
        ) implies bound_together(g, s.stitches, pos, links[pos]) by {
        assert(valid_pos(g, pos));
    }
}

/// A row that is knitted to its end is one more row knitted.
pub proof fn lemma_row_end_inv(g: GridView, links: Links, s: Sweep, r: int)
    requires
        g.wf(),
        links_valid(g, links),
        0 <= r < g.n_rows,
        inv(g, links, s, r, g.n_stitches),
    ensures
        inv(g, links, s, r + 1, 0),
{
    assert(progress(g, r, g.n_stitches) == progress(g, r + 1, 0)) by (nonlinear_arith)
        requires
            progress(g, r, g.n_stitches) == r * g.n_stitches + g.n_stitches,
            progress(g, r + 1, 0) == (r + 1) * g.n_stitches + 0,
    ;
    assert forall|x: int, y: int| g.contains(x, y) implies (s.stitches[#[trigger] cell_index(
        g.n_stitches,
        x,
        y,
    )] is Some <==> (processed(g, r + 1, 0, x, y) && g.at(x, y) is Some)) by {
        assert(processed(g, r, g.n_stitches, x, y) <==> processed(g, r + 1, 0, x, y));
    }
    assert forall|pos: (u16, u16)|
        (#[trigger] links.contains_key(pos)) && processed(
            g,
            r + 1,
            0,
            g.n_stitches - pos.0,
            g.n_rows - pos.1,
        ) implies bound_together(g, s.stitches, pos, links[pos]) by {
        assert(valid_pos(g, pos));
        let x = g.n_stitches - pos.0;
        let y = g.n_rows - pos.1;
        assert(g.contains(x, y));
        assert(processed(g, r, g.n_stitches, x, y) <==> processed(g, r + 1, 0, x, y));
    }
}

/// A place without a stitch leaves `inv` as it was.
proof fn lemma_skip_inv(g: GridView, links: Links, s: Sweep, r: int, j: int)
    requires
        g.wf(),
        links_valid(g, links),
        0 <= r < g.n_rows,
        0 <= j < g.n_stitches,
        inv(g, links, s, r, j),
        g.at(knit_x(g, r, j), knit_y(g, r)) is None,
    ensures
        inv(g, links, s, r, j + 1),
{
    let x = knit_x(g, r, j);
    let y = knit_y(g, r);
    assert(progress(g, r, j + 1) == progress(g, r, j) + 1);
    assert forall|ax: int, ay: int| g.contains(ax, ay) implies (s.stitches[#[trigger] cell_index(
        g.n_stitches,
        ax,
        ay,
    )] is Some <==> (processed(g, r, j + 1, ax, ay) && g.at(ax, ay) is Some)) by {
        assert(processed(g, r, j + 1, ax, ay) <==> (processed(g, r, j, ax, ay) || (ax == x && ay
            == y)));
    }
    assert forall|id: int| 0 <= id < s.threads.len() implies thread_ok(
        g,
        s,
        #[trigger] s.threads[id],
        id,
        progress(g, r, j + 1),
    ) by {
        assert(thread_ok(g, s, s.threads[id], id, progress(g, r, j)));
    }
    assert forall|pos: (u16, u16)|
        (#[trigger] links.contains_key(pos)) && processed(
            g,
            r,
            j + 1,
            g.n_stitches - pos.0,
            g.n_rows - pos.1,
        ) implies bound_together(g, s.stitches, pos, links[pos]) by {
        assert(valid_pos(g, pos));
        let px = g.n_stitches - pos.0;
        let py = g.n_rows - pos.1;
        assert(color_at(g, pos) == g.at(px, py));
        assert(processed(g, r, j + 1, px, py) <==> (processed(g, r, j, px, py) || (px == x && py
            == y)));
    }
}

/// A stitch that is knitted leaves `inv` as it was.
proof fn lemma_knit_inv(
    g: GridView,
    links: Links,
    s: Sweep,
    r: int,
    j: int,
    color: Color,
    found: Option<int>,
)
    requires
        g.wf(),
        links_valid(g, links),
        0 <= r < g.n_rows,
        0 <= j < g.n_stitches,
        inv(g, links, s, r, j),
        g.at(knit_x(g, r, j), knit_y(g, r)) == Some(color),
        find_thread(g, links, s, color, knit_x(g, r, j), knit_y(g, r)) == Ok::<
            Option<int>,
            Error,
        >(found),
    ensures
        inv(
            g,
            links,
            knit(
                s,
                found,
                color,
                knit_x(g, r, j),
                knit_y(g, r),
                cell_index(g.n_stitches, knit_x(g, r, j), knit_y(g, r)),
            ),
            r,
            j + 1,
        ),
        found matches Some(k) ==> 0 <= k < s.order.len(),
{
    let x = knit_x(g, r, j);
    let y = knit_y(g, r);
    let n = g.n_stitches;
    let c = cell_index(n, x, y);
    let here = user_pos(g, x, y);
    let done = progress(g, r, j);
    let next = knit(s, found, color, x, y, c);
    lemma_cell_index(n, g.n_rows, x, y);
    assert(g.contains(x, y));
    assert(!processed(g, r, j, x, y));
    assert(s.stitches[c] is None);
    assert(progress(g, r, j + 1) == done + 1);
    assert(0 <= done < g.n_rows * g.n_stitches) by (nonlinear_arith)
        requires
            done == r * g.n_stitches + j,
            0 <= r < g.n_rows,
            0 <= j < g.n_stitches,
    ;
    assert(g.n_rows * g.n_stitches <= 0xffff * 0xffff) by (nonlinear_arith)
        requires
            0 <= g.n_rows <= 0xffff,
            0 <= g.n_stitches <= 0xffff,
    ;
    let linked = links.contains_key(here);
    if linked {
        lemma_find_at(s, n - links[here].0, g.n_rows - links[here].1, 0);
    } else {
        lemma_find_neighbor(s, color, x, y, s.order.len() as int);
    }
    let id: int = match found {
        Some(k) => s.order[k] as int,
        None => s.threads.len() as int,
    };
    let stitch = Stitch { color, thread: id as u32 };
    assert(next.stitches == s.stitches.update(c, Some(stitch)));
    // The thread that is taken up has the colour of the stitch.
    if let Some(k) = found {
        assert(0 <= k < s.order.len());
        assert(0 <= id < s.threads.len());
        let t = s.threads[id];
        assert(thread_ok(g, s, t, id, done));
        if linked {
            let dest = links[here];
            let at_dest = cell_index(n, t.x as int, t.y as int);
            lemma_cell_index(n, g.n_rows, t.x as int, t.y as int);
            assert(stitch_ok(g, s, at_dest));
            assert(valid_pos(g, here));
            assert(color_at(g, here) == color_at(g, dest));
            assert(color_at(g, here) == g.at(x, y));
            assert(color_at(g, dest) == g.at(t.x as int, t.y as int));
        }
        assert(t.color == color);
    } else {
        assert(!linked);
        assert forall|i: int| 0 <= i < s.stitches.len() implies (
        #[trigger] s.stitches[i] matches Some(st) ==> st.thread != id) by {
            assert(stitch_ok(g, s, i));
        }
        lemma_refs_none(s.stitches, id);
    }
    assert(next.threads.len() <= done + 1);
    assert(0 <= id < next.threads.len());
    assert(next.threads[id].color == color);
    assert forall|ax: int, ay: int| g.contains(ax, ay) implies (next.stitches[#[trigger] cell_index(
        n,
        ax,
        ay,
    )] is Some <==> (processed(g, r, j + 1, ax, ay) && g.at(ax, ay) is Some)) by {
        lemma_cell_index(n, g.n_rows, ax, ay);
        assert(processed(g, r, j + 1, ax, ay) <==> (processed(g, r, j, ax, ay) || (ax == x && ay
            == y)));
        if ax == x && ay == y {
        } else {
            assert(cell_index(n, ax, ay) != c);
        }
    }
    assert forall|other: int| 0 <= other < next.threads.len() implies thread_ok(
        g,
        next,
        #[trigger] next.threads[other],
        other,
        done + 1,
    ) by {
        lemma_refs_update(s.stitches, c, stitch, other);
        let after = next.threads[other];
        if other == id {
            assert(after.id == id);
            assert(after.x == x && after.y == y);
            assert(after.color == color);
            assert(next.stitches[c] == Some(stitch));
            assert(after.stitch_count == refs(next.stitches, id));
            assert forall|ax: int, ay: int| g.contains(ax, ay) implies (next.stitches[#[trigger] cell_index(
                n,
                ax,
                ay,
            )] matches Some(st) ==> st.thread == id ==> not_after(g, ax, ay, x, y)) by {
                lemma_cell_index(n, g.n_rows, ax, ay);
                if !(ax == x && ay == y) {
                    assert(processed(g, r, j, ax, ay) ==> not_after(g, ax, ay, x, y));
                }
            }
        } else {
            let t = s.threads[other];
            assert(thread_ok(g, s, t, other, done));
            assert(after == t);
            lemma_cell_index(n, g.n_rows, t.x as int, t.y as int);
            assert(cell_index(n, t.x as int, t.y as int) != c);
            assert forall|ax: int, ay: int| g.contains(ax, ay) implies (next.stitches[#[trigger] cell_index(
                n,
                ax,
                ay,
            )] matches Some(st) ==> st.thread == other ==> not_after(
                g,
                ax,
                ay,
                t.x as int,
                t.y as int,
            )) by {
                lemma_cell_index(n, g.n_rows, ax, ay);
                if !(ax == x && ay == y) {
                    assert(next.stitches[cell_index(n, ax, ay)] == s.stitches[cell_index(
                        n,
                        ax,
                        ay,
                    )]);
                }
            }
        }
    }
    assert forall|i: int| 0 <= i < next.stitches.len() implies #[trigger] stitch_ok(g, next, i) by {
        if i != c {
            assert(stitch_ok(g, s, i));
            if let Some(st) = s.stitches[i] {
                assert(next.threads[st.thread as int].color == s.threads[st.thread as int].color);
            }
        }
    }
    assert forall|k: int| 0 <= k < next.order.len() implies #[trigger] next.order[k]
        < next.threads.len() by {
        match found {
            Some(at) => {
                if k < next.order.len() - 1 {
                    if k < at {
                        assert(next.order[k] == s.order[k]);
                    } else {
                        assert(next.order[k] == s.order[k + 1]);
                    }
                }
            },
            None => {
                if k < s.order.len() {
                    assert(next.order[k] == s.order[k]);
                }
            },
        }
    }
    assert forall|pos: (u16, u16)|
        (#[trigger] links.contains_key(pos)) && processed(
            g,
            r,
            j + 1,
            g.n_stitches - pos.0,
            g.n_rows - pos.1,
        ) implies bound_together(g, next.stitches, pos, links[pos]) by {
        assert(valid_pos(g, pos));
        assert(valid_pos(g, links[pos]));
        let dest = links[pos];
        let px = n - pos.0;
        let py = g.n_rows - pos.1;
        let dx = n - dest.0;
        let dy = g.n_rows - dest.1;
        lemma_cell_index(n, g.n_rows, px, py);
        lemma_cell_index(n, g.n_rows, dx, dy);
        assert(processed(g, r, j + 1, px, py) <==> (processed(g, r, j, px, py) || (px == x && py
            == y)));
        if px == x && py == y {
            assert(pos == here);
            let k = found->Some_0;
            let t = s.threads[id];
            assert(t.x == dx && t.y == dy);
            assert(s.stitches[cell_index(n, dx, dy)] == Some(
                Stitch { color: t.color, thread: id as u32 },
            ));
            assert(cell_index(n, dx, dy) != c);
        } else {
            assert(bound_together(g, s.stitches, pos, dest));
            assert(cell_index(n, px, py) != c);
            assert(cell_index(n, dx, dy) != c);
        }
    }
}

/// One place more leaves `inv` as it was.
pub proof fn lemma_step_inv(g: GridView, links: Links, s: Sweep, r: int, j: int)
    requires
        g.wf(),
        links_valid(g, links),
        0 <= r < g.n_rows,
        0 <= j < g.n_stitches,
        inv(g, links, s, r, j),
    ensures
        step(g, links, s, knit_x(g, r, j), knit_y(g, r)) matches Ok(next) ==> inv(
            g,
            links,
            next,
            r,
            j + 1,
        ),
{
    let x = knit_x(g, r, j);
    let y = knit_y(g, r);
    match g.at(x, y) {
        None => {
            lemma_skip_inv(g, links, s, r, j);
        },
        Some(color) => {
            if let Ok(found) = find_thread(g, links, s, color, x, y) {
                lemma_knit_inv(g, links, s, r, j, color, found);
            }
        },
    }
}

/// `inv` holds of every state of the sweep.
pub proof fn lemma_sweep_inv(g: GridView, links: Links, r: int, j: int)
    requires
        g.wf(),
        links_valid(g, links),
        0 <= r <= g.n_rows,
        0 <= j <= g.n_stitches,
        r == g.n_rows ==> j == 0,
    ensures
        row_sweep(g, links, r, j) matches Ok(s) ==> inv(g, links, s, r, j),
    decreases r, j,
{
    if j <= 0 {
        if r <= 0 {
            lemma_start_inv(g, links);
        } else {
            lemma_sweep_inv(g, links, r - 1, g.n_stitches);
            if let Ok(s) = row_sweep(g, links, r - 1, g.n_stitches) {
                lemma_row_end_inv(g, links, s, r - 1);
            }
        }
    } else {
        lemma_sweep_inv(g, links, r, j - 1);
        if let Ok(s) = row_sweep(g, links, r, j - 1) {
            lemma_step_inv(g, links, s, r, j - 1);
        }
    }
}

/// An error stays: the sweep ends with the first one.
pub proof fn lemma_error_stays(g: GridView, links: Links, r: int, j: int, r2: int, j2: int)
    requires
        0 <= r,
        0 <= j <= g.n_stitches,
        0 <= j2 <= g.n_stitches,
        r < r2 || (r == r2 && j <= j2),
        row_sweep(g, links, r, j) is Err,
    ensures
        row_sweep(g, links, r2, j2) == row_sweep(g, links, r, j),
    decreases r2, j2,
{
    if r == r2 && j == j2 {
    } else if j2 <= 0 {
        lemma_error_stays(g, links, r, j, r2 - 1, g.n_stitches);
    } else {
        lemma_error_stays(g, links, r, j, r2, j2 - 1);
    }
}

/// The sweep at work: the threads, their order and the stitches that are
/// knitted so far.
pub struct Planner {
    pub threads: Vec<Thread>,
    pub order: Vec<u32>,
    pub stitches: Vec<Option<Stitch>>,
}

impl View for Planner {
    type V = Sweep;

    open spec fn view(&self) -> Sweep {
        Sweep { threads: self.threads@, order: self.order@, stitches: self.stitches@ }
    }
}

impl Planner {
    /// The planner before the first stitch of a grid.
    pub fn new(grid: &Grid) -> (planner: Planner)
        requires
            grid@.wf(),
        ensures
            planner@ == start(grid@),
    {
        let total = grid.len();
        let mut stitches: Vec<Option<Stitch>> = Vec::new();
        let mut i: usize = 0;
        while i < total
            invariant
                i <= total,
                stitches@.len() == i,
                forall|k: int| 0 <= k < i ==> stitches@[k] is None,
            decreases total - i,
        {
            stitches.push(None);
            i = i + 1;
        }
        let planner = Planner { threads: Vec::new(), order: Vec::new(), stitches };
        assert(planner@.stitches =~= start(grid@).stitches);
        planner
    }

    /// The place in `order` of the thread to which a link binds the
    /// stitch at `(x, y)`: `None` where no link binds it.
    pub fn find_thread_in_links(&self, grid: &Grid, links: &LinkMap, x: u16, y: u16) -> (result:
        Result<Option<usize>, Error>)
        requires
            grid@.wf(),
            grid@.contains(x as int, y as int),
            links_valid(grid@, links@),
            forall|k: int|
                0 <= k < self.order@.len() ==> #[trigger] self.order@[k] < self.threads@.len(),
        ensures
            match result {
                Ok(Some(k)) => linked_thread(grid@, links@, self@, x as int, y as int) == Ok::<
                    Option<int>,
                    Error,
                >(Some(k as int)) && k < self.order@.len(),
                Ok(None) => linked_thread(grid@, links@, self@, x as int, y as int) == Ok::<
                    Option<int>,
                    Error,
                >(None),
                Err(e) => linked_thread(grid@, links@, self@, x as int, y as int) == Err::<
                    Option<int>,
                    Error,
                >(e),
            },
    {
        let source = (grid.n_stitches - x, grid.n_rows - y);
        match links.get(source) {
            Some(dest) => {
                assert(valid_pos(grid@, dest));
                let at_x = grid.n_stitches - dest.0;
                let at_y = grid.n_rows - dest.1;
                let mut i: usize = 0;
                while i < self.order.len()
                    invariant
                        i <= self.order@.len(),
                        source == user_pos(grid@, x as int, y as int),
                        links@.contains_key(source),
                        links@[source] == dest,
                        at_x == grid.n_stitches - dest.0,
                        at_y == grid.n_rows - dest.1,
                        forall|k: int|
                            0 <= k < self.order@.len() ==> #[trigger] self.order@[k]
                                < self.threads@.len(),
                        find_at(self@, at_x as int, at_y as int, 0) == find_at(
                            self@,
                            at_x as int,
                            at_y as int,
                            i as int,
                        ),
                    decreases self.order@.len() - i,
                {
                    let id = self.order[i] as usize;
                    assert(self.order@[i as int] < self.threads@.len());
                    let thread = &self.threads[id];
                    if thread.x == at_x && thread.y == at_y {
                        assert(find_at(self@, at_x as int, at_y as int, i as int) == Some(
                            i as int,
                        ));
                        return Ok(Some(i));
                    }
                    i = i + 1;
                }
                Err(Error::LinkNotFound(Link { source, dest }))
            },
            None => Ok(None),
        }
    }

    /// The place in `order` of the thread that the stitch of the colour
    /// `color` at `(x, y)` takes over from a neighbour.
    pub fn find_neighboring_thread(&self, color: Color, x: u16, y: u16) -> (found: Option<usize>)
        requires
            forall|k: int|
                0 <= k < self.order@.len() ==> #[trigger] self.order@[k] < self.threads@.len(),
        ensures
            match found {
                Some(k) => find_neighbor(self@, color, x as int, y as int, self.order@.len() as int)
                    == Some(k as int) && k < self.order@.len(),
                None => find_neighbor(self@, color, x as int, y as int, self.order@.len() as int)
                    is None,
            },
    {
        let mut i: usize = self.order.len();
        while i > 0
            invariant
                i <= self.order@.len(),
                forall|k: int|
                    0 <= k < self.order@.len() ==> #[trigger] self.order@[k] < self.threads@.len(),
                find_neighbor(self@, color, x as int, y as int, self.order@.len() as int)
                    == find_neighbor(self@, color, x as int, y as int, i as int),
            decreases i,
        {
            let id = self.order[i - 1] as usize;
            assert(self.order@[i - 1] < self.threads@.len());
            let thread = &self.threads[id];
            if thread.y as u32 > y as u32 + MAX_ROW_GAP as u32 {
                return None;
            }
            let near = if thread.x >= x {
                thread.x - x <= MAX_STITCH_GAP
            } else {
                x - thread.x <= MAX_STITCH_GAP
            };
            if same_color(&thread.color, &color) && near {
                return Some(i - 1);
            }
            i = i - 1;
        }
        None
    }

    /// Takes up the thread for a stitch of the colour `color` at `(x, y)`:
    /// the one that a link binds the stitch to, one of a neighbour, or a
    /// new one. The thread moves on to `(x, y)` and to the end of `order`;
    /// the stitch is not knitted yet. Returns the number of the thread.
    pub fn find_thread(&mut self, grid: &Grid, links: &LinkMap, color: Color, x: u16, y: u16) -> (result:
        Result<u32, Error>)
        requires
            grid@.wf(),
            links_valid(grid@, links@),
            grid@.contains(x as int, y as int),
            old(self).threads@.len() < u32::MAX,
            forall|k: int|
                0 <= k < old(self).order@.len() ==> #[trigger] old(self).order@[k] < old(
                    self,
                ).threads@.len(),
        ensures
            match result {
                Ok(id) => {
                    &&& find_thread(grid@, links@, old(self)@, color, x as int, y as int) matches Ok(
                        found,
                    )
                    &&& final(self)@ == take_up(old(self)@, found, color, x as int, y as int)
                    &&& id == chosen(old(self)@, found)
                    &&& found matches Some(k) ==> 0 <= k < old(self).order@.len()
                    // The thread is the last in `order` and stands at the
                    // stitch, and no stitch is knitted.
                    &&& final(self).order@.len() > 0
                    &&& final(self).order@.last() == id
                    &&& id < final(self).threads@.len()
                    &&& final(self).threads@[id as int].x == x
                    &&& final(self).threads@[id as int].y == y
                    &&& final(self).stitches@ == old(self).stitches@
                },
                Err(e) => {
                    &&& find_thread(grid@, links@, old(self)@, color, x as int, y as int) == Err::<
                        Option<int>,
                        Error,
                    >(e)
                    &&& final(self)@ == old(self)@
                },
            },
    {
        let ghost before = self@;
        let linked = match self.find_thread_in_links(grid, links, x, y) {
            Ok(linked) => linked,
            Err(e) => {
                return Err(e);
            },
        };
        let found = match linked {
            Some(k) => Some(k),
            None => self.find_neighboring_thread(color, x, y),
        };
        let ghost spec_found: Option<int> = match found {
            Some(k) => Some(k as int),
            None => None,
        };
        assert(find_thread(grid@, links@, before, color, x as int, y as int) == Ok::<
            Option<int>,
            Error,
        >(spec_found));
        let id: u32 = match found {
            Some(k) => {
                let id = self.order.remove(k);
                self.order.push(id);
                assert(before.order[k as int] < before.threads.len());
                let thread = self.threads[id as usize];
                self.threads.set(
                    id as usize,
                    Thread {
                        x,
                        y,
                        id: thread.id,
                        color: thread.color,
                        stitch_count: thread.stitch_count,
                    },
                );
                id
            },
            None => {
                let id = self.threads.len() as u32;
                self.threads.push(Thread { x, y, id, color, stitch_count: 0 });
                self.order.push(id);
                id
            },
        };
        proof {
            let next = take_up(before, spec_found, color, x as int, y as int);
            assert(self@.threads =~= next.threads);
            assert(self@.order =~= next.order);
            assert(self@.stitches =~= next.stitches);
        }
        Ok(id)
    }

    /// Gives each stitch of the grid its thread, in the order in which the
    /// stitches are knitted: the thread is taken up, it counts the stitch,
    /// and the stitch is given the number of the thread.
    pub fn calculate_threads(grid: &Grid, links: &LinkMap) -> (result: Result<Planner, Error>)
        requires
            grid@.wf(),
            links_valid(grid@, links@),
        ensures
            match result {
                Ok(planner) => sweep(grid@, links@) == Ok::<Sweep, Error>(planner@),
                Err(e) => sweep(grid@, links@) == Err::<Sweep, Error>(e),
            },
    {
        let ghost g = grid@;
        let mut planner = Planner::new(grid);
        let mut r: u16 = 0;
        while r < grid.n_rows
            invariant
                g == grid@,
                g.wf(),
                links_valid(g, links@),
                r <= grid.n_rows,
                row_sweep(g, links@, r as int, 0) == Ok::<Sweep, Error>(planner@),
            decreases grid.n_rows - r,
        {
            let y: u16 = grid.n_rows - 1 - r;
            let mut j: u16 = 0;
            while j < grid.n_stitches
                invariant
                    g == grid@,
                    g.wf(),
                    links_valid(g, links@),
                    r < grid.n_rows,
                    y == knit_y(g, r as int),
                    j <= grid.n_stitches,
                    row_sweep(g, links@, r as int, j as int) == Ok::<Sweep, Error>(planner@),
                decreases grid.n_stitches - j,
            {
                let x: u16 = if r % 2 == 0 {
                    grid.n_stitches - 1 - j
                } else {
                    j
                };
                let ghost before = planner@;
                proof {
                    lemma_sweep_inv(g, links@, r as int, j as int);
                    lemma_progress_bound(g, r as int, j as int);
                }
                if let Some(color) = grid.get(x, y) {
                    match planner.find_thread(grid, links, color, x, y) {
                        Ok(id) => {
                            let ghost found = find_thread(
                                g,
                                links@,
                                before,
                                color,
                                x as int,
                                y as int,
                            )->Ok_0;
                            proof {
                                lemma_knit_inv(g, links@, before, r as int, j as int, color, found);
                                if let Some(k) = found {
                                    assert(thread_ok(
                                        g,
                                        before,
                                        before.threads[id as int],
                                        id as int,
                                        progress(g, r as int, j as int),
                                    ));
                                }
                            }
                            planner.count_stitch(grid, id, color, x, y);
                        },
                        Err(e) => {
                            proof {
                                assert(row_sweep(g, links@, r as int, j + 1) == Err::<Sweep, Error>(
                                    e,
                                ));
                                lemma_error_stays(g, links@, r as int, j + 1, g.n_rows, 0);
                            }
                            return Err(e);
                        },
                    }
                }
                j = j + 1;
            }
            r = r + 1;
        }
        Ok(planner)
    }

    /// Knits the stitch of the colour `color` at `(x, y)` with the thread
    /// `id`: the thread counts the stitch, and the stitch is given the
    /// number of the thread.
    pub fn count_stitch(&mut self, grid: &Grid, id: u32, color: Color, x: u16, y: u16)
        requires
            grid@.wf(),
            grid@.contains(x as int, y as int),
            old(self).stitches@.len() == grid@.colors.len(),
            id < old(self).threads@.len(),
            old(self).threads@[id as int].stitch_count < u32::MAX,
        ensures
            final(self)@ == stitched(
                old(self)@,
                id,
                color,
                cell_index(grid.n_stitches as int, x as int, y as int),
            ),
    {
        let index = grid.offset(x, y);
        let thread = self.threads[id as usize];
        self.threads.set(
            id as usize,
            Thread {
                x: thread.x,
                y: thread.y,
                id: thread.id,
                color: thread.color,
                stitch_count: thread.stitch_count + 1,
            },
        );
        self.stitches.set(index, Some(Stitch { color, thread: id }));
    }
}

/// Before the last place of a grid fewer places are done than there are.
pub proof fn lemma_progress_bound(g: GridView, r: int, j: int)
    requires
        g.wf(),
        0 <= r < g.n_rows,
        0 <= j < g.n_stitches,
    ensures
        0 <= progress(g, r, j) < g.n_rows * g.n_stitches <= 0xffff * 0xffff,
{
    assert(0 <= progress(g, r, j) < g.n_rows * g.n_stitches) by (nonlinear_arith)
        requires
            progress(g, r, j) == r * g.n_stitches + j,
            0 <= r < g.n_rows,
            0 <= j < g.n_stitches,
    ;
    assert(g.n_rows * g.n_stitches <= 0xffff * 0xffff) by (nonlinear_arith)
        requires
            0 <= g.n_rows <= 0xffff,
            0 <= g.n_stitches <= 0xffff,
    ;
}

} // verus!
