use crate::dimensions::Link;
use crate::fabric::Error;
use crate::grid::{Grid, GridView};
use crate::stitch_image::{same_pixel, Color};
use std::collections::HashMap;
use vstd::prelude::*;

verus! {

/// The most rows that may lie between two stitches of one thread.
pub const MAX_ROW_GAP: u16 = 2;

/// The most columns that may lie between two stitches of one thread.
pub const MAX_STITCH_GAP: u16 = 1;

/// A position of a link as one number.
pub open spec fn pack(pos: (u16, u16)) -> u32 {
    (pos.0 as u32 * 65536 + pos.1 as u32) as u32
}

/// The position that a number stands for.
pub open spec fn unpack(key: u32) -> (u16, u16) {
    ((key / 65536) as u16, (key % 65536) as u16)
}

/// Positions and numbers stand for each other, one for one.
pub proof fn lemma_pack(pos: (u16, u16))
    ensures
        unpack(pack(pos)) == pos,
        pos.0 * 65536 + pos.1 <= u32::MAX,
{
}

/// Two positions with the same number are the same.
pub proof fn lemma_pack_injective(a: (u16, u16), b: (u16, u16))
    requires
        pack(a) == pack(b),
    ensures
        a == b,
{
    lemma_pack(a);
    lemma_pack(b);
}

/// A position as one number.
fn pack_pos(pos: (u16, u16)) -> (key: u32)
    ensures
        key == pack(pos),
{
    pos.0 as u32 * 65536 + pos.1 as u32
}

/// The position that a number stands for.
fn unpack_pos(key: u32) -> (pos: (u16, u16))
    ensures
        pos == unpack(key),
{
    ((key / 65536) as u16, (key % 65536) as u16)
}

/// For each stitch that a link binds, the stitch that it is bound to.
/// Positions are those of the links: they count from 1 at the bottom right.
pub struct LinkMap {
    map: HashMap<u32, u32>,
}

impl View for LinkMap {
    type V = Map<(u16, u16), (u16, u16)>;

    closed spec fn view(&self) -> Map<(u16, u16), (u16, u16)> {
        Map::new(
            |pos: (u16, u16)| self.map@.contains_key(pack(pos)),
            |pos: (u16, u16)| unpack(self.map@[pack(pos)]),
        )
    }
}

impl LinkMap {
    /// A map without links.
    pub fn new() -> (links: LinkMap)
        ensures
            links@ == Map::<(u16, u16), (u16, u16)>::empty(),
    {
        let links = LinkMap { map: HashMap::new() };
        assert(links@ =~= Map::<(u16, u16), (u16, u16)>::empty());
        links
    }

    /// Binds `source` to `dest`. An earlier binding of `source` is lost.
    pub fn insert(&mut self, source: (u16, u16), dest: (u16, u16))
        ensures
            final(self)@ == old(self)@.insert(source, dest),
    {
        broadcast use vstd::std_specs::hash::group_hash_axioms;

        let key = pack_pos(source);
        let value = pack_pos(dest);
        self.map.insert(key, value);
        proof {
            lemma_pack(dest);
            assert forall|pos: (u16, u16)| pack(pos) == key implies pos == source by {
                lemma_pack_injective(pos, source);
            }
            assert(self@ =~= old(self)@.insert(source, dest));
        }
    }

    /// The stitch that `source` is bound to, if it is bound.
    pub fn get(&self, source: (u16, u16)) -> (dest: Option<(u16, u16)>)
        ensures
            dest == if self@.contains_key(source) {
                Some(self@[source])
            } else {
                None
            },
    {
        broadcast use vstd::std_specs::hash::group_hash_axioms;

        let key = pack_pos(source);
        match self.map.get(&key) {
            Some(value) => Some(unpack_pos(*value)),
            None => None,
        }
    }
}

/// The distance between two numbers.
pub open spec fn distance(a: int, b: int) -> int {
    if a >= b {
        a - b
    } else {
        b - a
    }
}

/// The colour of the stitch at a link's position: column `pos.0` from the
/// right, row `pos.1` from the bottom, both counted from 1.
pub open spec fn color_at(g: GridView, pos: (u16, u16)) -> Option<Color> {
    g.at(g.n_stitches - pos.0, g.n_rows - pos.1)
}

/// A link may name the position: it lies in the fabric and holds a stitch.
pub open spec fn valid_pos(g: GridView, pos: (u16, u16)) -> bool {
    &&& 1 <= pos.0 <= g.n_stitches
    &&& 1 <= pos.1 <= g.n_rows
    &&& color_at(g, pos) is Some
}

/// The two ends of the link are further apart than the stitches of one
/// thread may be.
pub open spec fn too_far(link: Link) -> bool {
    ||| distance(link.source.0 as int, link.dest.0 as int) > MAX_STITCH_GAP
    ||| distance(link.source.1 as int, link.dest.1 as int) > MAX_ROW_GAP
}

/// `a` is knitted after `b`. Rows are knitted from the bottom up, row 1
/// first. Odd rows are knitted from right to left, that is from stitch 1
/// upwards, even rows from left to right.
pub open spec fn comes_later(a: (u16, u16), b: (u16, u16)) -> bool {
    a.1 > b.1 || (a.1 == b.1 && if a.1 % 2 == 0 {
        a.0 < b.0
    } else {
        a.0 > b.0
    })
}

/// The end of the link that is knitted last. Where both ends are one
/// position, that position.
pub open spec fn later_end(link: Link) -> (u16, u16) {
    if comes_later(link.source, link.dest) {
        link.source
    } else {
        link.dest
    }
}

/// The end of the link that is knitted first.
pub open spec fn earlier_end(link: Link) -> (u16, u16) {
    if comes_later(link.source, link.dest) {
        link.dest
    } else {
        link.source
    }
}

/// What is wrong with a link, if anything is. The source is looked at
/// before the destination, the positions before the distance, and the
/// distance before the colours.
pub open spec fn link_error(g: GridView, allow_link_gaps: bool, link: Link) -> Option<Error> {
    if !valid_pos(g, link.source) {
        Some(Error::PosOutsideOfFabric(link.source.0, link.source.1))
    } else if !valid_pos(g, link.dest) {
        Some(Error::PosOutsideOfFabric(link.dest.0, link.dest.1))
    } else if !allow_link_gaps && too_far(link) {
        Some(Error::LinkTooFar(link))
    } else if color_at(g, link.source) != color_at(g, link.dest) {
        Some(Error::LinkToDifferentColor(link))
    } else {
        None
    }
}

/// The map of the links: each link binds its later end to its earlier
/// end, and of two links with the same later end the last one counts.
/// The error of the first link with which something is wrong.
pub open spec fn link_map(g: GridView, allow_link_gaps: bool, links: Seq<Link>) -> Result<
    Map<(u16, u16), (u16, u16)>,
    Error,
>
    decreases links.len(),
{
    if links.len() == 0 {
        Ok(Map::empty())
    } else {
        match link_map(g, allow_link_gaps, links.drop_last()) {
            Err(e) => Err(e),
            Ok(map) => match link_error(g, allow_link_gaps, links.last()) {
                Some(e) => Err(e),
                None => Ok(map.insert(later_end(links.last()), earlier_end(links.last()))),
            },
        }
    }
}

/// Every binding of the map joins two stitches of the fabric that have
/// the same colour, and the first is not knitted before the second.
pub open spec fn links_valid(g: GridView, map: Map<(u16, u16), (u16, u16)>) -> bool {
    forall|pos: (u16, u16)| #[trigger]
        map.contains_key(pos) ==> {
            &&& valid_pos(g, pos)
            &&& valid_pos(g, map[pos])
            &&& color_at(g, pos) == color_at(g, map[pos])
            &&& !comes_later(map[pos], pos)
        }
}

/// The map of a list of links is valid.
pub proof fn lemma_link_map_valid(g: GridView, allow_link_gaps: bool, links: Seq<Link>)
    ensures
        link_map(g, allow_link_gaps, links) matches Ok(map) ==> links_valid(g, map),
    decreases links.len(),
{
    if links.len() > 0 {
        lemma_link_map_valid(g, allow_link_gaps, links.drop_last());
    }
}

/// An error in a list of links is one in every longer list too.
pub proof fn lemma_link_map_error(g: GridView, allow_link_gaps: bool, links: Seq<Link>, n: int)
    requires
        0 <= n <= links.len(),
        link_map(g, allow_link_gaps, links.take(n)) is Err,
    ensures
        link_map(g, allow_link_gaps, links) == link_map(g, allow_link_gaps, links.take(n)),
    decreases links.len() - n,
{
    if n < links.len() {
        assert(links.take(n + 1).drop_last() =~= links.take(n));
        lemma_link_map_error(g, allow_link_gaps, links, n + 1);
    } else {
        assert(links.take(n) =~= links);
    }
}

/// The distance between two columns or two rows.
pub fn gap(a: u16, b: u16) -> (d: u16)
    ensures
        d == distance(a as int, b as int),
{
    if a >= b {
        a - b
    } else {
        b - a
    }
}

/// Whether `a` is knitted after `b`.
pub fn is_later(a: (u16, u16), b: (u16, u16)) -> (later: bool)
    ensures
        later == comes_later(a, b),
{
    a.1 > b.1 || (a.1 == b.1 && if a.1 % 2 == 0 {
        a.0 < b.0
    } else {
        a.0 > b.0
    })
}

impl Grid {
    /// The colour of the stitch at a link's position.
    pub fn look_up_link_position(&self, pos: (u16, u16)) -> (color: Option<Color>)
        requires
            self@.wf(),
            1 <= pos.0 <= self.n_stitches,
            1 <= pos.1 <= self.n_rows,
        ensures
            color == color_at(self@, pos),
    {
        self.get(self.n_stitches - pos.0, self.n_rows - pos.1)
    }

    /// Whether a link may name the position.
    pub fn validate_link_pos(&self, pos: (u16, u16)) -> (result: Result<(), Error>)
        requires
            self@.wf(),
        ensures
            result == if valid_pos(self@, pos) {
                Ok::<(), Error>(())
            } else {
                Err(Error::PosOutsideOfFabric(pos.0, pos.1))
            },
    {
        if pos.0 == 0 || pos.0 > self.n_stitches || pos.1 == 0 || pos.1 > self.n_rows {
            return Err(Error::PosOutsideOfFabric(pos.0, pos.1));
        }
        match self.look_up_link_position(pos) {
            Some(_) => Ok(()),
            None => Err(Error::PosOutsideOfFabric(pos.0, pos.1)),
        }
    }

    /// What is wrong with a link, if anything is.
    pub fn check_link(&self, allow_link_gaps: bool, link: &Link) -> (error: Option<Error>)
        requires
            self@.wf(),
        ensures
            error == link_error(self@, allow_link_gaps, *link),
    {
        if let Err(e) = self.validate_link_pos(link.source) {
            return Some(e);
        }
        if let Err(e) = self.validate_link_pos(link.dest) {
            return Some(e);
        }
        if !allow_link_gaps && (gap(link.source.0, link.dest.0) > MAX_STITCH_GAP || gap(
            link.source.1,
            link.dest.1,
        ) > MAX_ROW_GAP) {
            return Some(Error::LinkTooFar(*link));
        }
        let source = self.look_up_link_position(link.source);
        let dest = self.look_up_link_position(link.dest);
        if !same_pixel(&source, &dest) {
            return Some(Error::LinkToDifferentColor(*link));
        }
        None
    }

    /// The map of the links, or the error of the first link with which
    /// something is wrong.
    pub fn links_to_hash(&self, links: &Vec<Link>, allow_link_gaps: bool) -> (result: Result<
        LinkMap,
        Error,
    >)
        requires
            self@.wf(),
        ensures
            match result {
                Ok(map) => link_map(self@, allow_link_gaps, links@) == Ok::<
                    Map<(u16, u16), (u16, u16)>,
                    Error,
                >(map@),
                Err(e) => link_map(self@, allow_link_gaps, links@) == Err::<
                    Map<(u16, u16), (u16, u16)>,
                    Error,
                >(e),
            },
    {
        let mut map = LinkMap::new();
        let mut i: usize = 0;
        assert(links@.take(0) =~= Seq::<Link>::empty());
        while i < links.len()
            invariant
                self@.wf(),
                i <= links.len(),
                link_map(self@, allow_link_gaps, links@.take(i as int)) == Ok::<
                    Map<(u16, u16), (u16, u16)>,
                    Error,
                >(map@),
            decreases links.len() - i,
        {
            let link = links[i];
            proof {
                assert(links@.take(i + 1).drop_last() =~= links@.take(i as int));
                assert(links@.take(i + 1).last() == link);
            }
            if let Some(e) = self.check_link(allow_link_gaps, &link) {
                proof {
                    lemma_link_map_error(self@, allow_link_gaps, links@, i + 1);
                }
                return Err(e);
            }
            if is_later(link.source, link.dest) {
                map.insert(link.source, link.dest);
            } else {
                map.insert(link.dest, link.source);
            }
            i = i + 1;
        }
        assert(links@.take(i as int) =~= links@);
        Ok(map)
    }
}

} // verus!
