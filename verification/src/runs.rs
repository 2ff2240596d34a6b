use crate::fabric::{Stitch, Thread};
use crate::stitch_image::{same_color, Color};
use vstd::prelude::*;

verus! {

/// A run: stitches of one colour that lie side by side in a row, with no
/// stitch of that colour next to them. It begins at the column `start`,
/// counted from 0 at the left, and is `len` stitches long.
#[derive(Clone, Copy, Debug)]
pub struct Run {
    pub start: u16,
    pub len: u16,
    pub color: Color,
}

/// The runs among the first `upto` stitches of the row that begins at
/// `first` in `stitches`, from the left. A place without a stitch belongs
/// to no run.
pub open spec fn runs_upto(stitches: Seq<Option<Stitch>>, first: int, upto: int) -> Seq<Run>
    decreases upto,
{
    if upto <= 0 {
        Seq::empty()
    } else {
        let before = runs_upto(stitches, first, upto - 1);
        match stitches[first + upto - 1] {
            None => before,
            Some(st) => if continues(stitches, first, upto - 1, st.color) {
                before.update(
                    before.len() - 1,
                    Run { len: (before.last().len + 1) as u16, ..before.last() },
                )
            } else {
                before.push(Run { start: (upto - 1) as u16, len: 1, color: st.color })
            },
        }
    }
}

/// A stitch of the colour `color` at the column `x` continues the run of
/// the stitch to its left.
pub open spec fn continues(stitches: Seq<Option<Stitch>>, first: int, x: int, color: Color) -> bool {
    x > 0 && (stitches[first + x - 1] matches Some(left) && left.color == color)
}

/// What holds of the runs of the first `upto` stitches of a row: each
/// lies within them, and the last one ends with the last stitch, if
/// there is a stitch.
pub proof fn lemma_runs(stitches: Seq<Option<Stitch>>, first: int, upto: int)
    requires
        0 <= upto <= u16::MAX,
    ensures
        ({
            let runs = runs_upto(stitches, first, upto);
            &&& runs.len() <= upto
            &&& forall|i: int|
                0 <= i < runs.len() ==> 1 <= (#[trigger] runs[i]).len && runs[i].start
                    + runs[i].len <= upto
            &&& upto > 0 && stitches[first + upto - 1] is Some ==> {
                &&& runs.len() > 0
                &&& runs.last().start + runs.last().len == upto
                &&& runs.last().color == stitches[first + upto - 1]->Some_0.color
            }
        }),
    decreases upto,
{
    if upto > 0 {
        lemma_runs(stitches, first, upto - 1);
    }
}

/// The runs of the row of `n` stitches that begins at `first` in `stitches`.
pub fn row_runs(stitches: &[Option<Stitch>], first: usize, n: u16) -> (runs: Vec<Run>)
    requires
        first + n <= stitches@.len(),
    ensures
        runs@ == runs_upto(stitches@, first as int, n as int),
{
    let total = stitches.len();
    let mut runs: Vec<Run> = Vec::new();
    let mut x: u16 = 0;
    while x < n
        invariant
            x <= n,
            first + n <= stitches@.len(),
            total == stitches@.len(),
            runs@ == runs_upto(stitches@, first as int, x as int),
        decreases n - x,
    {
        proof {
            lemma_runs(stitches@, first as int, x as int);
        }
        if let Some(stitch) = &stitches[first + x as usize] {
            let joined = if x > 0 {
                match &stitches[first + x as usize - 1] {
                    Some(left) => same_color(&left.color, &stitch.color),
                    None => false,
                }
            } else {
                false
            };
            if joined {
                let last = runs.len() - 1;
                let run = runs[last];
                runs.set(last, Run { start: run.start, len: run.len + 1, color: run.color });
            } else {
                runs.push(Run { start: x, len: 1, color: stitch.color });
            }
        }
        x = x + 1;
    }
    runs
}

/// The stitches of one colour: the colour, and how many stitches the
/// threads of that colour have together.
#[derive(Clone, Copy, Debug)]
pub struct ColorCount {
    pub color: Color,
    pub stitch_count: u64,
}

/// The place of the colour `color` in `counts`, from `from` on.
pub open spec fn color_index(counts: Seq<ColorCount>, color: Color, from: int) -> Option<int>
    decreases counts.len() - from,
{
    if from >= counts.len() {
        None
    } else if counts[from].color == color {
        Some(from)
    } else {
        color_index(counts, color, from + 1)
    }
}

/// The counts with `n` stitches more of the colour `color`: a colour
/// that is new comes last.
pub open spec fn counted(counts: Seq<ColorCount>, color: Color, n: nat) -> Seq<ColorCount> {
    match color_index(counts, color, 0) {
        Some(i) => counts.update(
            i,
            ColorCount { color, stitch_count: (counts[i].stitch_count + n) as u64 },
        ),
        None => counts.push(ColorCount { color, stitch_count: n as u64 }),
    }
}

/// The stitches of each colour among the first `upto` threads, the
/// colours in the order in which they first occur.
pub open spec fn counts_upto(threads: Seq<Thread>, upto: int) -> Seq<ColorCount>
    decreases upto,
{
    if upto <= 0 {
        Seq::empty()
    } else {
        counted(
            counts_upto(threads, upto - 1),
            threads[upto - 1].color,
            threads[upto - 1].stitch_count as nat,
        )
    }
}

/// The place at which a colour with `n` stitches goes into counts that
/// fall: before the first colour with fewer stitches.
pub open spec fn place_of_count(counts: Seq<ColorCount>, n: u64, from: int) -> int
    decreases counts.len() - from,
{
    if from >= counts.len() || counts[from].stitch_count < n {
        from
    } else {
        place_of_count(counts, n, from + 1)
    }
}

/// The counts in falling order. Colours with equally many stitches keep
/// their order.
pub open spec fn falling(counts: Seq<ColorCount>) -> Seq<ColorCount>
    decreases counts.len(),
{
    if counts.len() == 0 {
        Seq::empty()
    } else {
        let sorted = falling(counts.drop_last());
        sorted.insert(place_of_count(sorted, counts.last().stitch_count, 0), counts.last())
    }
}

/// The stitches of each colour, the colour with the most stitches first.
/// Of two colours with equally many stitches, the one whose first thread
/// has the lower number comes first.
pub open spec fn color_tally(threads: Seq<Thread>) -> Seq<ColorCount> {
    falling(counts_upto(threads, threads.len() as int))
}

/// No colour stands before one with more stitches.
pub open spec fn is_falling(counts: Seq<ColorCount>) -> bool {
    forall|i: int, j: int|
        0 <= i < j < counts.len() ==> (#[trigger] counts[i]).stitch_count >= (
        #[trigger] counts[j]).stitch_count
}

/// Where a count goes in: after the counts that are no smaller, before
/// those that are smaller.
pub proof fn lemma_place_of_count(counts: Seq<ColorCount>, n: u64, from: int)
    requires
        0 <= from <= counts.len(),
        is_falling(counts),
    ensures
        from <= place_of_count(counts, n, from) <= counts.len(),
        forall|i: int|
            from <= i < place_of_count(counts, n, from) ==> (#[trigger] counts[i]).stitch_count
                >= n,
        forall|i: int|
            place_of_count(counts, n, from) <= i < counts.len() ==> (
            #[trigger] counts[i]).stitch_count < n,
    decreases counts.len() - from,
{
    if from < counts.len() && counts[from].stitch_count >= n {
        lemma_place_of_count(counts, n, from + 1);
    } else if from < counts.len() {
        assert forall|i: int| from <= i < counts.len() implies (#[trigger] counts[i]).stitch_count
            < n by {
            if i > from {
                assert(counts[from].stitch_count >= counts[i].stitch_count);
            }
        }
    }
}

/// The tally falls, and it holds what the counts hold.
pub proof fn lemma_falling(counts: Seq<ColorCount>)
    ensures
        is_falling(falling(counts)),
        falling(counts).len() == counts.len(),
        falling(counts).to_multiset() == counts.to_multiset(),
    decreases counts.len(),
{
    broadcast use vstd::seq_lib::group_to_multiset_ensures;

    if counts.len() > 0 {
        let front = counts.drop_last();
        let sorted = falling(front);
        let last = counts.last();
        lemma_falling(front);
        lemma_place_of_count(sorted, last.stitch_count, 0);
        let k = place_of_count(sorted, last.stitch_count, 0);
        let after = sorted.insert(k, last);
        assert forall|i: int, j: int| 0 <= i < j < after.len() implies (
        #[trigger] after[i]).stitch_count >= (#[trigger] after[j]).stitch_count by {
            if i < k && j > k {
                assert(sorted[i].stitch_count >= sorted[j - 1].stitch_count);
            } else if i < k && j < k {
                assert(sorted[i].stitch_count >= sorted[j].stitch_count);
            } else if i > k {
                assert(sorted[i - 1].stitch_count >= sorted[j - 1].stitch_count);
            }
        }
        assert(counts =~= front.push(last));
        vstd::seq_lib::to_multiset_insert(sorted, k, last);
    } else {
        assert(falling(counts) =~= counts);
    }
}

/// There are no more colours than threads.
pub proof fn lemma_color_tally_len(threads: Seq<Thread>)
    ensures
        color_tally(threads).len() <= threads.len(),
{
    lemma_counts_len(threads, threads.len() as int);
    lemma_falling(counts_upto(threads, threads.len() as int));
}

/// The first threads have no more colours than they are.
pub proof fn lemma_counts_len(threads: Seq<Thread>, upto: int)
    requires
        0 <= upto,
    ensures
        counts_upto(threads, upto).len() <= upto,
    decreases upto,
{
    if upto > 0 {
        lemma_counts_len(threads, upto - 1);
        lemma_color_index(counts_upto(threads, upto - 1), threads[upto - 1].color, 0);
    }
}

/// A colour that is found is found at a place of the counts.
pub proof fn lemma_color_index(counts: Seq<ColorCount>, color: Color, from: int)
    requires
        0 <= from,
    ensures
        color_index(counts, color, from) matches Some(i) ==> from <= i < counts.len()
            && counts[i].color == color,
    decreases counts.len() - from,
{
    if from < counts.len() && counts[from].color != color {
        lemma_color_index(counts, color, from + 1);
    }
}

/// The place of a colour in the counts.
fn find_color(counts: &Vec<ColorCount>, color: &Color) -> (found: Option<usize>)
    ensures
        match found {
            Some(i) => color_index(counts@, *color, 0) == Some(i as int) && i < counts@.len(),
            None => color_index(counts@, *color, 0) is None,
        },
{
    let mut i: usize = 0;
    while i < counts.len()
        invariant
            i <= counts@.len(),
            color_index(counts@, *color, 0) == color_index(counts@, *color, i as int),
        decreases counts@.len() - i,
    {
        if same_color(&counts[i].color, color) {
            return Some(i);
        }
        i = i + 1;
    }
    None
}

/// The stitches of each colour, the colour with the most stitches first.
pub fn color_counts(threads: &[Thread]) -> (tally: Vec<ColorCount>)
    requires
        threads@.len() <= u32::MAX,
    ensures
        tally@ == color_tally(threads@),
        is_falling(tally@),
{
    let mut counts: Vec<ColorCount> = Vec::new();
    let mut i: usize = 0;
    while i < threads.len()
        invariant
            i <= threads@.len() <= u32::MAX,
            counts@ == counts_upto(threads@, i as int),
            forall|k: int|
                0 <= k < counts@.len() ==> (#[trigger] counts@[k]).stitch_count <= i * u32::MAX,
        decreases threads@.len() - i,
    {
        let thread = &threads[i];
        assert(i * u32::MAX + u32::MAX <= u32::MAX * u32::MAX + u32::MAX) by (nonlinear_arith)
            requires
                0 <= i <= u32::MAX,
        ;
        assert((i + 1) * u32::MAX == i * u32::MAX + u32::MAX) by (nonlinear_arith);
        match find_color(&counts, &thread.color) {
            Some(k) => {
                let count = counts[k];
                counts.set(
                    k,
                    ColorCount {
                        color: thread.color,
                        stitch_count: count.stitch_count + thread.stitch_count as u64,
                    },
                );
            },
            None => {
                counts.push(
                    ColorCount { color: thread.color, stitch_count: thread.stitch_count as u64 },
                );
            },
        }
        i = i + 1;
    }
    let mut tally: Vec<ColorCount> = Vec::new();
    let mut j: usize = 0;
    assert(counts@.take(0) =~= Seq::<ColorCount>::empty());
    while j < counts.len()
        invariant
            j <= counts@.len(),
            tally@ == falling(counts@.take(j as int)),
        decreases counts@.len() - j,
    {
        let item = counts[j];
        proof {
            lemma_falling(counts@.take(j as int));
            lemma_place_of_count(tally@, item.stitch_count, 0);
            assert(counts@.take(j + 1).drop_last() =~= counts@.take(j as int));
        }
        let mut k: usize = 0;
        while k < tally.len() && tally[k].stitch_count >= item.stitch_count
            invariant
                k <= tally@.len(),
                place_of_count(tally@, item.stitch_count, 0) == place_of_count(
                    tally@,
                    item.stitch_count,
                    k as int,
                ),
            decreases tally@.len() - k,
        {
            k = k + 1;
        }
        tally.insert(k, item);
        j = j + 1;
    }
    proof {
        assert(counts@.take(j as int) =~= counts@);
        lemma_falling(counts@);
    }
    tally
}

} // verus!
