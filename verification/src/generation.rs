//! Carving a level: rooms, the hallways between them, doors, and the tiles
//! that result.

use vstd::prelude::*;
use crate::items::{ItemInfo, ItemType, PotionType};
use crate::map::{
    in_bounds, index_of, tile_at, tile_index, lemma_index_round_trip, Door, Floor, Object, Room, Trap,
    TrapType, MAP_HEIGHT_TILES, MAP_WIDTH_TILES,
};
use crate::map::{tile_corner, tile_to_world, lemma_tile_round_trip};
use crate::math::{IVec2, Vec2};
use crate::rng::Rng;

verus! {

/// Smallest extent of a room along an axis, in tiles.
pub const MIN_SIZE: i32 = 8;

/// One more than the largest extent of a room along an axis, in tiles.
pub const MAX_SIZE: i32 = 14;

/// How many tiles at least lie between the walls of two rooms, halved: each
/// room is widened by this much on every side before the two are compared.
pub const MIN_DISTANCE_BETWEEN_ROOMS: i32 = 2;

/// How many placements of a room are tried.
pub const PLACEMENT_ATTEMPTS: u32 = 100000;

/// The place of a room: the two corners of its wall.
#[derive(Clone, Copy, Debug, PartialEq, Eq, Structural)]
pub struct RoomSite {
    pub top_left: IVec2,
    pub bottom_right: IVec2,
}

impl RoomSite {
    /// A site is valid when the room is on the map and its extent along
    /// each axis is at least `MIN_SIZE` and less than `MAX_SIZE`.
    pub open spec fn valid(self) -> bool {
        &&& 0 <= self.top_left.x
        &&& 0 <= self.top_left.y
        &&& self.bottom_right.x <= MAP_WIDTH_TILES
        &&& self.bottom_right.y <= MAP_HEIGHT_TILES
        &&& MIN_SIZE <= self.bottom_right.x - self.top_left.x < MAX_SIZE
        &&& MIN_SIZE <= self.bottom_right.y - self.top_left.y < MAX_SIZE
    }

    /// Whether two rooms, each widened by `MIN_DISTANCE_BETWEEN_ROOMS` on
    /// every side, overlap.
    pub open spec fn too_close(self, other: RoomSite) -> bool {
        &&& self.bottom_right.x + MIN_DISTANCE_BETWEEN_ROOMS > other.top_left.x
            - MIN_DISTANCE_BETWEEN_ROOMS
        &&& self.bottom_right.y + MIN_DISTANCE_BETWEEN_ROOMS > other.top_left.y
            - MIN_DISTANCE_BETWEEN_ROOMS
        &&& other.bottom_right.x + MIN_DISTANCE_BETWEEN_ROOMS > self.top_left.x
            - MIN_DISTANCE_BETWEEN_ROOMS
        &&& other.bottom_right.y + MIN_DISTANCE_BETWEEN_ROOMS > self.top_left.y
            - MIN_DISTANCE_BETWEEN_ROOMS
    }

    /// Whether `pos` is a tile of the wall of a room at this site.
    pub open spec fn on_wall(self, pos: IVec2) -> bool {
        &&& self.top_left.x <= pos.x <= self.bottom_right.x
        &&& self.top_left.y <= pos.y <= self.bottom_right.y
        &&& (pos.x == self.top_left.x || pos.x == self.bottom_right.x || pos.y == self.top_left.y
            || pos.y == self.bottom_right.y)
    }

    /// Whether `pos` is one of the four corners of the wall.
    pub open spec fn is_corner(self, pos: IVec2) -> bool {
        &&& (pos.x == self.top_left.x || pos.x == self.bottom_right.x)
        &&& (pos.y == self.top_left.y || pos.y == self.bottom_right.y)
    }

    /// Whether `pos` is strictly inside the wall of a room at this site.
    pub open spec fn inside(self, pos: IVec2) -> bool {
        &&& self.top_left.x < pos.x < self.bottom_right.x
        &&& self.top_left.y < pos.y < self.bottom_right.y
    }

    /// The middle tile of the room.
    pub open spec fn center(self) -> IVec2 {
        IVec2 {
            x: ((self.top_left.x + self.bottom_right.x) / 2) as i32,
            y: ((self.top_left.y + self.bottom_right.y) / 2) as i32,
        }
    }

    /// Whether `pos` shares its column with a vertical wall of the room or
    /// its row with a horizontal wall.
    pub open spec fn in_line_with_wall(self, pos: IVec2) -> bool {
        pos.x == self.top_left.x || pos.y == self.top_left.y || pos.x == self.bottom_right.x
            || pos.y == self.bottom_right.y
    }

    pub fn is_too_close(&self, other: &RoomSite) -> (r: bool)
        requires
            self.valid(),
            other.valid(),
        ensures
            r == self.too_close(*other),
    {
        self.bottom_right.x + MIN_DISTANCE_BETWEEN_ROOMS > other.top_left.x
            - MIN_DISTANCE_BETWEEN_ROOMS && self.bottom_right.y + MIN_DISTANCE_BETWEEN_ROOMS
            > other.top_left.y - MIN_DISTANCE_BETWEEN_ROOMS && other.bottom_right.x
            + MIN_DISTANCE_BETWEEN_ROOMS > self.top_left.x - MIN_DISTANCE_BETWEEN_ROOMS
            && other.bottom_right.y + MIN_DISTANCE_BETWEEN_ROOMS > self.top_left.y
            - MIN_DISTANCE_BETWEEN_ROOMS
    }

    pub fn center_tile(&self) -> (c: IVec2)
        requires
            self.valid(),
        ensures
            c == self.center(),
            4 <= c.x <= MAP_WIDTH_TILES - 4,
            4 <= c.y <= MAP_HEIGHT_TILES - 4,
    {
        IVec2 {
            x: (self.top_left.x + self.bottom_right.x) / 2,
            y: (self.top_left.y + self.bottom_right.y) / 2,
        }
    }

    pub fn is_in_line_with_wall(&self, pos: IVec2) -> (r: bool)
        ensures
            r == self.in_line_with_wall(pos),
    {
        pos.x == self.top_left.x || pos.y == self.top_left.y || pos.x == self.bottom_right.x
            || pos.y == self.bottom_right.y
    }
}

/// Every site is valid and no two of them are too close to each other.
pub open spec fn sites_apart(sites: Seq<RoomSite>) -> bool {
    &&& forall|i: int| 0 <= i < sites.len() ==> (#[trigger] sites[i]).valid()
    &&& forall|i: int, j: int|
        0 <= i < sites.len() && 0 <= j < sites.len() && i != j ==> !(#[trigger] sites[i]).too_close(
            #[trigger] sites[j],
        )
}

/// The room that four draws propose: the column and the row of its top left
/// corner, then its extent along x and along y.
#[verifier::opaque]
pub open spec fn proposed(state: u64) -> RoomSite {
    let x = crate::rng::scale_to_range(0, MAP_WIDTH_TILES as int, crate::rng::output(state));
    let y = crate::rng::scale_to_range(
        0,
        MAP_HEIGHT_TILES as int,
        crate::rng::output(crate::rng::next_state(state)),
    );
    let w = crate::rng::scale_to_range(
        MIN_SIZE as int,
        MAX_SIZE as int,
        crate::rng::output(crate::rng::next_state(crate::rng::next_state(state))),
    );
    let h = crate::rng::scale_to_range(
        MIN_SIZE as int,
        MAX_SIZE as int,
        crate::rng::output(
            crate::rng::next_state(crate::rng::next_state(crate::rng::next_state(state))),
        ),
    );
    RoomSite {
        top_left: IVec2 { x: x as i32, y: y as i32 },
        bottom_right: IVec2 { x: (x + w) as i32, y: (y + h) as i32 },
    }
}

/// The state of the generator after the four draws of a proposal.
pub open spec fn after_proposal(state: u64) -> u64 {
    crate::rng::next_state(
        crate::rng::next_state(crate::rng::next_state(crate::rng::next_state(state))),
    )
}

/// Whether a proposed room is kept: it stays on the map and is not too
/// close to a room kept before.
pub open spec fn accepted(sites: Seq<RoomSite>, site: RoomSite) -> bool {
    &&& site.bottom_right.x <= MAP_WIDTH_TILES
    &&& site.bottom_right.y <= MAP_HEIGHT_TILES
    &&& forall|k: int| 0 <= k < sites.len() ==> !(#[trigger] sites[k]).too_close(site)
}

/// The rooms that are kept of the first `n` proposals drawn from `state`
/// on.
pub open spec fn placed(state: u64, n: nat) -> Seq<RoomSite>
    decreases n,
{
    if n == 0 {
        Seq::empty()
    } else {
        let before = placed(state, (n - 1) as nat);
        let site = proposed(proposals_drawn(state, (n - 1) as nat));
        if accepted(before, site) {
            before.push(site)
        } else {
            before
        }
    }
}

/// The state of the generator after `n` proposals drawn from `state` on.
pub open spec fn proposals_drawn(state: u64, n: nat) -> u64
    decreases n,
{
    if n == 0 {
        state
    } else {
        after_proposal(proposals_drawn(state, (n - 1) as nat))
    }
}

/// Draws a proposal for a room.
pub fn propose_room(rng: &mut Rng) -> (site: RoomSite)
    ensures
        site == proposed(old(rng).state),
        final(rng).state == after_proposal(old(rng).state),
        0 <= site.top_left.x < MAP_WIDTH_TILES,
        0 <= site.top_left.y < MAP_HEIGHT_TILES,
        MIN_SIZE <= site.bottom_right.x - site.top_left.x < MAX_SIZE,
        MIN_SIZE <= site.bottom_right.y - site.top_left.y < MAX_SIZE,
{
    reveal(proposed);
    let x = rng.gen_range(0, MAP_WIDTH_TILES as i32);
    let y = rng.gen_range(0, MAP_HEIGHT_TILES as i32);
    let w = rng.gen_range(MIN_SIZE, MAX_SIZE);
    let h = rng.gen_range(MIN_SIZE, MAX_SIZE);
    RoomSite { top_left: IVec2 { x, y }, bottom_right: IVec2 { x: x + w, y: y + h } }
}

/// Tries `PLACEMENT_ATTEMPTS` random placements and keeps each room that
/// stays on the map and is not too close to a room kept before.
pub fn place_rooms(rng: &mut Rng) -> (sites: Vec<RoomSite>)
    ensures
        sites@ == placed(old(rng).state, PLACEMENT_ATTEMPTS as nat),
        final(rng).state == proposals_drawn(old(rng).state, PLACEMENT_ATTEMPTS as nat),
        sites_apart(sites@),
{
    let mut sites: Vec<RoomSite> = Vec::new();
    let mut attempt: u32 = 0;
    while attempt < PLACEMENT_ATTEMPTS
        invariant
            attempt <= PLACEMENT_ATTEMPTS,
            sites_apart(sites@),
            sites@ == placed(old(rng).state, attempt as nat),
            rng.state == proposals_drawn(old(rng).state, attempt as nat),
        decreases PLACEMENT_ATTEMPTS - attempt,
    {
        attempt = attempt + 1;
        let site = propose_room(rng);
        // Fail if the room extends past the map border
        if site.bottom_right.x > MAP_WIDTH_TILES as i32 || site.bottom_right.y
            > MAP_HEIGHT_TILES as i32 {
            continue ;
        }
        let mut clash: bool = false;
        let mut k: usize = 0;
        while k < sites.len()
            invariant
                k <= sites@.len(),
                sites_apart(sites@),
                site.valid(),
                clash <==> exists|j: int| 0 <= j < k && (#[trigger] sites@[j]).too_close(site),
            decreases sites@.len() - k,
        {
            if sites[k].is_too_close(&site) {
                clash = true;
            }
            k = k + 1;
        }
        if !clash {
            let ghost before = sites@;
            sites.push(site);
            assert forall|i: int, j: int|
                0 <= i < sites@.len() && 0 <= j < sites@.len() && i != j implies !(
            #[trigger] sites@[i]).too_close(#[trigger] sites@[j]) by {
                if i < before.len() && j < before.len() {
                    assert(!before[i].too_close(before[j]));
                } else if i < before.len() {
                    assert(!before[i].too_close(site));
                } else {
                    assert(!before[j].too_close(site));
                }
            }
        }
    }
    sites
}

/// Exchanging two sites keeps the sites valid and apart, and keeps what the
/// list holds.
pub proof fn lemma_swap_keeps_apart(before: Seq<RoomSite>, i: int, j: int)
    requires
        sites_apart(before),
        0 <= i < before.len(),
        0 <= j < before.len(),
    ensures
        sites_apart(before.update(i, before[j]).update(j, before[i])),
        before.update(i, before[j]).update(j, before[i]).to_multiset() == before.to_multiset(),
{
    let after = before.update(i, before[j]).update(j, before[i]);
    assert forall|p: int, q: int|
        0 <= p < after.len() && 0 <= q < after.len() && p != q implies !(#[trigger] after[p]).too_close(
        #[trigger] after[q],
    ) by {
        let sp = if p == i {
            j
        } else if p == j {
            i
        } else {
            p
        };
        let sq = if q == i {
            j
        } else if q == j {
            i
        } else {
            q
        };
        assert(after[p] == before[sp]);
        assert(after[q] == before[sq]);
        assert(!before[sp].too_close(before[sq]));
    }
    assert forall|p: int| 0 <= p < after.len() implies (#[trigger] after[p]).valid() by {
        let sp = if p == i {
            j
        } else if p == j {
            i
        } else {
            p
        };
        assert(after[p] == before[sp]);
    }
    broadcast use {vstd::multiset::group_multiset_axioms, vstd::multiset::group_multiset_properties};

    let mid = before.update(i, before[j]);
    vstd::seq_lib::to_multiset_update(before, i, before[j]);
    vstd::seq_lib::to_multiset_update(mid, j, before[i]);
    assert(mid[j] == before[j]);
    assert(before.to_multiset().count(before[i]) > 0) by {
        vstd::seq_lib::to_multiset_contains(before, before[i]);
        assert(before.contains(before[i]));
    }
    assert(after.to_multiset() =~= before.to_multiset());
}

/// The sites after the first `n` exchanges of a shuffle drawn from `state`
/// on: the site at place `i`, for `i` from 1 on, changes places with the one
/// at a place drawn below `i`.
pub open spec fn shuffled(sites: Seq<RoomSite>, state: u64, n: nat) -> Seq<RoomSite>
    decreases n,
{
    if n == 0 || n >= sites.len() {
        sites
    } else {
        let before = shuffled(sites, state, (n - 1) as nat);
        let j = crate::map::drawn_index(n as int, draws(state, (n - 1) as nat));
        before.update(n as int, before[j]).update(j, before[n as int])
    }
}

/// The state of the generator after `n` draws from `state` on.
pub open spec fn draws(state: u64, n: nat) -> u64
    decreases n,
{
    if n == 0 {
        state
    } else {
        crate::rng::next_state(draws(state, (n - 1) as nat))
    }
}

/// Puts the sites in a random order: each site from the second on changes
/// places with one that stands before it.
pub fn shuffle_sites(sites: &mut Vec<RoomSite>, rng: &mut Rng)
    requires
        sites_apart(old(sites)@),
    ensures
        sites_apart(final(sites)@),
        final(sites)@.len() == old(sites)@.len(),
        final(sites)@.to_multiset() == old(sites)@.to_multiset(),
        final(sites)@ == shuffled(old(sites)@, old(rng).state, shuffle_draws(old(sites)@.len())),
        final(rng).state == draws(old(rng).state, shuffle_draws(old(sites)@.len())),
{
    let mut i: usize = 1;
    while i < sites.len()
        invariant
            1 <= i,
            sites@.len() == old(sites)@.len(),
            sites_apart(sites@),
            sites@.to_multiset() == old(sites)@.to_multiset(),
            sites@.len() >= 1 ==> i <= sites@.len(),
            i <= sites@.len() ==> sites@ == shuffled(old(sites)@, old(rng).state, (i - 1) as nat)
                && rng.state == draws(old(rng).state, (i - 1) as nat),
            sites@.len() == 0 ==> sites@ == old(sites)@ && rng.state == old(rng).state,
        decreases sites@.len() - i,
    {
        let j = crate::map::draw_index(i, rng).unwrap();
        let a = sites[i];
        let b = sites[j];
        let ghost before = sites@;
        sites[i] = b;
        sites[j] = a;
        proof {
            assert(sites@ =~= before.update(i as int, before[j as int]).update(
                j as int,
                before[i as int],
            ));
            lemma_swap_keeps_apart(before, i as int, j as int);
            assert(sites@ == shuffled(old(sites)@, old(rng).state, i as nat));
            assert(rng.state == draws(old(rng).state, i as nat));
        }
        i = i + 1;
    }
}

/// Whether `pos` is in line with a wall of any of the rooms.
pub open spec fn in_line_with_any(sites: Seq<RoomSite>, pos: IVec2) -> bool {
    exists|k: int| 0 <= k < sites.len() && (#[trigger] sites[k]).in_line_with_wall(pos)
}

/// The first place out of line with the room it is held against, where `p`
/// moved by `change` along x and then along y is held against the rooms
/// from the `k`-th on.
pub open spec fn bend_against(sites: Seq<RoomSite>, p: IVec2, change: int, k: int) -> Option<IVec2>
    decreases sites.len() - k,
{
    if k < 0 || k >= sites.len() {
        None
    } else if !sites[k].in_line_with_wall(p.moved(change, 0)) {
        Some(p.moved(change, 0))
    } else if !sites[k].in_line_with_wall(p.moved(0, change)) {
        Some(p.moved(0, change))
    } else {
        bend_against(sites, p, change, k + 1)
    }
}

/// The first place found with a displacement from `change` up to 2.
pub open spec fn bend_from(sites: Seq<RoomSite>, p: IVec2, change: int) -> Option<IVec2>
    decreases 3 - change,
{
    if change > 2 {
        None
    } else {
        match bend_against(sites, p, change, 0) {
            Some(q) => Some(q),
            None => bend_from(sites, p, change + 1),
        }
    }
}

/// Where the end `p` of a hallway is moved to: `p` itself where it is in
/// line with no wall; otherwise the displacements -2 to 2 are tried in this
/// order, for each first along x and then along y, against each room in
/// turn, and the first place that is out of line with the room it is held
/// against is taken. `None` tells that no such place was found.
pub open spec fn bend(sites: Seq<RoomSite>, p: IVec2) -> Option<IVec2> {
    if !in_line_with_any(sites, p) {
        Some(p)
    } else {
        bend_from(sites, p, -2)
    }
}

/// Holds `p` moved by `change` against the rooms in turn.
fn adjust_against(sites: &Vec<RoomSite>, p: IVec2, change: i32) -> (r: Option<IVec2>)
    requires
        2 <= p.x <= MAP_WIDTH_TILES - 2,
        2 <= p.y <= MAP_HEIGHT_TILES - 2,
        -2 <= change <= 2,
    ensures
        r == bend_against(sites@, p, change as int, 0),
        r matches Some(q) ==> p.x - 2 <= q.x <= p.x + 2 && p.y - 2 <= q.y <= p.y + 2,
{
    let along_x = IVec2 { x: p.x + change, y: p.y };
    let along_y = IVec2 { x: p.x, y: p.y + change };
    assert(along_x == p.moved(change as int, 0));
    assert(along_y == p.moved(0, change as int));
    let mut k: usize = 0;
    while k < sites.len()
        invariant
            k <= sites@.len(),
            -2 <= change <= 2,
            along_x == (IVec2 { x: (p.x + change) as i32, y: p.y }),
            along_y == (IVec2 { x: p.x, y: (p.y + change) as i32 }),
            along_x == p.moved(change as int, 0),
            along_y == p.moved(0, change as int),
            bend_against(sites@, p, change as int, 0) == bend_against(
                sites@,
                p,
                change as int,
                k as int,
            ),
        decreases sites@.len() - k,
    {
        if !sites[k].is_in_line_with_wall(along_x) {
            return Some(along_x);
        } else if !sites[k].is_in_line_with_wall(along_y) {
            return Some(along_y);
        }
        k = k + 1;
    }
    None
}

/// Moves the end `p` of a hallway out of line with the walls, if it is in
/// line with a wall of any room.
pub fn adjust_bend(sites: &Vec<RoomSite>, p: IVec2) -> (r: Option<IVec2>)
    requires
        2 <= p.x <= MAP_WIDTH_TILES - 2,
        2 <= p.y <= MAP_HEIGHT_TILES - 2,
    ensures
        r == bend(sites@, p),
        r matches Some(q) ==> p.x - 2 <= q.x <= p.x + 2 && p.y - 2 <= q.y <= p.y + 2,
{
    let mut k: usize = 0;
    let mut touching: bool = false;
    while k < sites.len()
        invariant
            k <= sites@.len(),
            touching <==> exists|j: int| 0 <= j < k && (#[trigger] sites@[j]).in_line_with_wall(p),
        decreases sites@.len() - k,
    {
        if sites[k].is_in_line_with_wall(p) {
            touching = true;
        }
        k = k + 1;
    }
    if !touching {
        return Some(p);
    }
    let mut change: i32 = -2;
    while change <= 2
        invariant
            -2 <= change <= 3,
            2 <= p.x <= MAP_WIDTH_TILES - 2,
            2 <= p.y <= MAP_HEIGHT_TILES - 2,
            in_line_with_any(sites@, p),
            bend(sites@, p) == bend_from(sites@, p, change as int),
        decreases 3 - change,
    {
        match adjust_against(sites, p, change) {
            Some(q) => {
                return Some(q);
            },
            None => {},
        }
        change = change + 1;
    }
    None
}

/// Every tile of `tiles` lies at least one tile inside the map's border.
pub open spec fn off_border(tiles: Seq<IVec2>) -> bool {
    forall|k: int|
        0 <= k < tiles.len() ==> 1 <= (#[trigger] tiles[k]).x <= MAP_WIDTH_TILES - 2 && 1
            <= tiles[k].y <= MAP_HEIGHT_TILES - 2
}

/// The tiles of the run along the row of `left` from its column to the
/// column of `right`; none where `right` is left of `left`.
pub open spec fn run_along_x(left: IVec2, right: IVec2, n: int) -> Seq<IVec2> {
    Seq::new(n as nat, |i: int| IVec2 { x: (left.x + i) as i32, y: left.y })
}

/// The tiles of the run along the column of `right` from the row `lo` on.
pub open spec fn run_along_y(right: IVec2, lo: int, n: int) -> Seq<IVec2> {
    Seq::new(n as nat, |i: int| IVec2 { x: right.x, y: (lo + i) as i32 })
}

/// The tiles of an L-shaped hallway between `left` and `right`: the run
/// along the row of `left` from its column to the column of `right`, then
/// the run along the column of `right` between the two rows, begun one tile
/// early.
pub open spec fn hallway_between(left: IVec2, right: IVec2) -> Seq<IVec2> {
    let lo = crate::math::min(left.y as int, right.y as int) - 1;
    let hi = crate::math::max(left.y as int, right.y as int);
    run_along_x(left, right, crate::math::max(right.x - left.x + 1, 0)) + run_along_y(
        right,
        lo,
        hi - lo + 1,
    )
}

/// Adds to `hallways` the tiles of the hallway between `left` and `right`.
pub fn carve_hallway(left: IVec2, right: IVec2, hallways: &mut Vec<IVec2>)
    requires
        2 <= left.x <= MAP_WIDTH_TILES - 2,
        2 <= left.y <= MAP_HEIGHT_TILES - 2,
        2 <= right.x <= MAP_WIDTH_TILES - 2,
        2 <= right.y <= MAP_HEIGHT_TILES - 2,
        off_border(old(hallways)@),
    ensures
        final(hallways)@ == old(hallways)@ + hallway_between(left, right),
        off_border(final(hallways)@),
{
    let mut x: i32 = left.x;
    while x <= right.x
        invariant
            left.x <= x,
            x <= right.x + 1 || left.x > right.x,
            left.x > right.x ==> x == left.x,
            2 <= left.x,
            right.x <= MAP_WIDTH_TILES - 2,
            2 <= left.y <= MAP_HEIGHT_TILES - 2,
            off_border(hallways@),
            hallways@ == old(hallways)@ + run_along_x(left, right, x - left.x),
        decreases right.x + 1 - x,
    {
        let ghost before = hallways@;
        let tile = IVec2 { x, y: left.y };
        hallways.push(tile);
        assert(hallways@ =~= old(hallways)@ + run_along_x(left, right, x + 1 - left.x));
        x = x + 1;
    }
    let lo: i32 = if left.y < right.y { left.y } else { right.y };
    let hi: i32 = if left.y < right.y { right.y } else { left.y };
    let ghost mid = hallways@;
    let mut y: i32 = lo - 1;
    while y <= hi
        invariant
            lo - 1 <= y <= hi + 1,
            2 <= lo <= hi <= MAP_HEIGHT_TILES - 2,
            2 <= right.x <= MAP_WIDTH_TILES - 2,
            off_border(hallways@),
            hallways@ == mid + run_along_y(right, lo - 1, y - (lo - 1)),
        decreases hi + 1 - y,
    {
        let tile = IVec2 { x: right.x, y };
        hallways.push(tile);
        assert(hallways@ =~= mid + run_along_y(right, lo - 1, y + 1 - (lo - 1)));
        y = y + 1;
    }
    assert(hallways@ =~= old(hallways)@ + hallway_between(left, right));
}

/// What a sequence holds after one more item is put at its end.
pub proof fn lemma_push_contains<A>(s: Seq<A>, a: A)
    ensures
        forall|x: A| s.push(a).contains(x) <==> (s.contains(x) || x == a),
{
    assert forall|x: A| s.push(a).contains(x) <==> (s.contains(x) || x == a) by {
        if s.contains(x) {
            let k = choose|k: int| 0 <= k < s.len() && s[k] == x;
            assert(s.push(a)[k] == x);
        }
        assert(s.push(a)[s.len() as int] == a);
        if s.push(a).contains(x) {
            let k = choose|k: int| 0 <= k < s.push(a).len() && s.push(a)[k] == x;
            if k < s.len() {
                assert(s[k] == x);
            }
        }
    }
}

/// The two ends of the hallway of the `i`-th room, where `state` draws the
/// room that it is joined to: the middle tiles of the two rooms, the one
/// with the smaller column first, each moved by `bend`. `None` where an end
/// cannot be moved out of line with the walls.
pub open spec fn hallway_ends(sites: Seq<RoomSite>, i: int, state: u64) -> Option<(IVec2, IVec2)> {
    let other = crate::map::drawn_index(sites.len() as int, state);
    let a = sites[i].center();
    let b = sites[other].center();
    let ends = if a.x < b.x {
        (a, b)
    } else {
        (b, a)
    };
    match bend(sites, ends.0) {
        Some(left) => match bend(sites, ends.1) {
            Some(right) => Some((left, right)),
            None => None,
        },
        None => None,
    }
}

/// The hallway tiles of the first `n` rooms, drawn from `state` on.
pub open spec fn carved(sites: Seq<RoomSite>, state: u64, n: nat) -> Seq<IVec2>
    decreases n,
{
    if n == 0 {
        Seq::empty()
    } else {
        let before = carved(sites, state, (n - 1) as nat);
        match hallway_ends(sites, n - 1, draws(state, (n - 1) as nat)) {
            Some(ends) => before + hallway_between(ends.0, ends.1),
            None => before,
        }
    }
}

/// Carves the hallway of the `i`-th room: the room that it is joined to is
/// drawn, and the hallway is carved unless one of its ends cannot be moved
/// out of line with the walls.
pub fn carve_for(sites: &Vec<RoomSite>, i: usize, rng: &mut Rng, hallways: &mut Vec<IVec2>)
    requires
        sites_apart(sites@),
        i < sites@.len(),
        off_border(old(hallways)@),
    ensures
        off_border(final(hallways)@),
        final(rng).state == crate::rng::next_state(old(rng).state),
        final(hallways)@ == (match hallway_ends(sites@, i as int, old(rng).state) {
            Some(ends) => old(hallways)@ + hallway_between(ends.0, ends.1),
            None => old(hallways)@,
        }),
{
    let other = match crate::map::draw_index(sites.len(), rng) {
        Some(j) => j,
        None => i,
    };
    assert(sites@[i as int].valid());
    assert(sites@[other as int].valid());
    let room_center = sites[i].center_tile();
    let other_room_center = sites[other].center_tile();
    let (left_room, right_room) = if room_center.x < other_room_center.x {
        (room_center, other_room_center)
    } else {
        (other_room_center, room_center)
    };
    let left = match adjust_bend(sites, left_room) {
        Some(q) => q,
        None => {
            return ;
        },
    };
    let right = match adjust_bend(sites, right_room) {
        Some(q) => q,
        None => {
            return ;
        },
    };
    carve_hallway(left, right, hallways);
}

/// Joins each room to a room picked at random by an L-shaped hallway
/// between their middle tiles; a room whose hallway has an end that cannot
/// be moved out of line with the walls gets none.
pub fn carve_hallways(sites: &Vec<RoomSite>, rng: &mut Rng) -> (hallways: Vec<IVec2>)
    requires
        sites_apart(sites@),
    ensures
        hallways@ == carved(sites@, old(rng).state, sites@.len()),
        final(rng).state == draws(old(rng).state, sites@.len()),
        off_border(hallways@),
{
    let mut hallways: Vec<IVec2> = Vec::new();
    let mut i: usize = 0;
    while i < sites.len()
        invariant
            i <= sites@.len(),
            sites_apart(sites@),
            off_border(hallways@),
            hallways@ == carved(sites@, old(rng).state, i as nat),
            rng.state == draws(old(rng).state, i as nat),
        decreases sites@.len() - i,
    {
        carve_for(sites, i, rng, &mut hallways);
        i = i + 1;
    }
    hallways
}

/// How many draws a shuffle of `len` sites makes.
pub open spec fn shuffle_draws(len: nat) -> nat {
    if len == 0 {
        0
    } else {
        (len - 1) as nat
    }
}

/// The places of the rooms of a level that is generated from `state` on,
/// before those that no hallway reaches are left out: the rooms are placed
/// and then shuffled.
pub open spec fn planned_sites(state: u64) -> Seq<RoomSite> {
    let sites = placed(state, PLACEMENT_ATTEMPTS as nat);
    shuffled(
        sites,
        proposals_drawn(state, PLACEMENT_ATTEMPTS as nat),
        shuffle_draws(sites.len()),
    )
}

/// The hallway tiles of a level that is generated from `state` on, before
/// those inside a room are left out.
pub open spec fn planned_hallways(state: u64) -> Seq<IVec2> {
    let sites = placed(state, PLACEMENT_ATTEMPTS as nat);
    let begun = draws(
        proposals_drawn(state, PLACEMENT_ATTEMPTS as nat),
        shuffle_draws(sites.len()),
    );
    carved(planned_sites(state), begun, planned_sites(state).len())
}

/// The state of the generator once the level that is generated from
/// `state` on is planned.
pub open spec fn plan_end(state: u64) -> u64 {
    let sites = placed(state, PLACEMENT_ATTEMPTS as nat);
    draws(
        draws(proposals_drawn(state, PLACEMENT_ATTEMPTS as nat), shuffle_draws(sites.len())),
        sites.len(),
    )
}

/// Whether the level that is generated from `state` on has a room that a
/// hallway reaches.
#[verifier::opaque]
pub open spec fn plan_has_room(state: u64) -> bool {
    exists|k: int|
        0 <= k < planned_sites(state).len() && site_has_door(
            #[trigger] planned_sites(state)[k],
            planned_hallways(state),
        )
}

/// Plans a level: places the rooms, shuffles them and carves the hallways.
pub fn plan_level(rng: &mut Rng) -> (plan: (Vec<RoomSite>, Vec<IVec2>))
    ensures
        plan.0@ == planned_sites(old(rng).state),
        plan.1@ == planned_hallways(old(rng).state),
        final(rng).state == plan_end(old(rng).state),
        sites_apart(plan.0@),
        off_border(plan.1@),
{
    // First, try to fill the map with as many rooms as possible
    let mut sites = place_rooms(rng);
    shuffle_sites(&mut sites, rng);
    let hallways = carve_hallways(&sites, rng);
    (sites, hallways)
}

/// Whether `tiles` holds `pos`.
pub fn holds_tile(tiles: &Vec<IVec2>, pos: IVec2) -> (r: bool)
    ensures
        r == tiles@.contains(pos),
{
    let mut k: usize = 0;
    while k < tiles.len()
        invariant
            k <= tiles@.len(),
            forall|j: int| 0 <= j < k ==> tiles@[j] != pos,
        decreases tiles@.len() - k,
    {
        if tiles[k] == pos {
            return true;
        }
        k = k + 1;
    }
    false
}

/// The place of a room.
pub open spec fn site_of(room: Room) -> RoomSite {
    RoomSite { top_left: room.top_left, bottom_right: room.bottom_right }
}

/// Every room is well formed and of valid size, and no two rooms are too
/// close to each other.
pub open spec fn rooms_apart(rooms: Seq<Room>) -> bool {
    &&& forall|i: int|
        0 <= i < rooms.len() ==> (#[trigger] rooms[i]).wf() && site_of(rooms[i]).valid()
    &&& forall|i: int, j: int|
        0 <= i < rooms.len() && 0 <= j < rooms.len() && i != j ==> !site_of(
            #[trigger] rooms[i],
        ).too_close(site_of(#[trigger] rooms[j]))
}

/// Whether `pos` is strictly inside one of the rooms.
pub open spec fn inside_any(rooms: Seq<Room>, pos: IVec2) -> bool {
    exists|k: int| 0 <= k < rooms.len() && (#[trigger] rooms[k]).inside(pos)
}

/// Whether `pos` is on the wall of one of the rooms.
pub open spec fn on_any_wall(rooms: Seq<Room>, pos: IVec2) -> bool {
    exists|k: int| 0 <= k < rooms.len() && (#[trigger] rooms[k]).on_wall(pos)
}

/// The first of `doors` that stands at `pos`.
pub open spec fn door_at(doors: Seq<Door>, pos: IVec2) -> Option<Door>
    decreases doors.len(),
{
    if doors.len() == 0 {
        None
    } else if doors[0].pos == pos {
        Some(doors[0])
    } else {
        door_at(doors.drop_first(), pos)
    }
}

/// The first of `doors` that stands at `pos`.
pub fn find_door(doors: &Vec<Door>, pos: IVec2) -> (r: Option<Door>)
    ensures
        r == door_at(doors@, pos),
{
    let mut k: usize = 0;
    assert(doors@.subrange(0, doors@.len() as int) =~= doors@);
    while k < doors.len()
        invariant
            k <= doors@.len(),
            door_at(doors@, pos) == door_at(doors@.subrange(k as int, doors@.len() as int), pos),
        decreases doors@.len() - k,
    {
        let ghost rest = doors@.subrange(k as int, doors@.len() as int);
        assert(rest.drop_first() =~= doors@.subrange(k + 1, doors@.len() as int));
        assert(rest[0] == doors@[k as int]);
        if doors[k].pos == pos {
            return Some(doors[k]);
        }
        k = k + 1;
    }
    assert(doors@.subrange(k as int, doors@.len() as int).len() == 0);
    None
}

/// A wall or a floor without anything on it, never looked at.
pub open spec fn is_bare(o: Object) -> bool {
    &&& o.door is None
    &&& o.trap is None
    &&& o.items@.len() == 0
    &&& o.effects@.len() == 0
    &&& !o.has_been_seen
    &&& !o.currently_visible
}

/// A tile of a room's floor as generation leaves it: it may hold a trap
/// that has not gone off, and it may hold one potion of regeneration.
pub open spec fn is_room_floor(o: Object) -> bool {
    &&& o.is_floor
    &&& o.door is None
    &&& o.effects@.len() == 0
    &&& !o.has_been_seen
    &&& !o.currently_visible
    &&& o.trap matches Some(t) ==> !t.triggered
    &&& o.items@.len() <= 1
    &&& o.items@.len() == 1 ==> o.items@[0] == (ItemInfo {
        cursed: false,
        item_type: ItemType::Potion(PotionType::Regeneration),
        tile_pos: Some(o.pos),
        stack_count: Some(1u8),
    })
}

/// A tile of the wall of `room` as generation leaves it: it carries the
/// door that the room has at that place, if it has one.
pub open spec fn is_room_wall(o: Object, room: Room) -> bool {
    &&& !o.is_floor
    &&& o.door == door_at(room.doors@, o.pos)
    &&& o.trap is None
    &&& o.items@.len() == 0
    &&& o.effects@.len() == 0
    &&& !o.has_been_seen
    &&& !o.currently_visible
}

/// Whether `pos` is in the rectangle over which a room lays its floor: from
/// the top left corner of the wall up to, but without, the right and bottom
/// runs of the wall.
pub open spec fn in_floor_range(site: RoomSite, pos: IVec2) -> bool {
    site.top_left.x <= pos.x < site.bottom_right.x && site.top_left.y <= pos.y
        < site.bottom_right.y
}

/// One chance in 249 that a tile of a room's floor is trapped.
pub const TRAP_ROLL_HIGH: i32 = 250;

pub const TRAP_ROLL_HIT: i32 = 100;

/// One chance in 50 that a potion lies on a tile of a room's floor.
pub const ITEM_ROLL_HIGH: i32 = 50;

pub const ITEM_ROLL_HIT: i32 = 25;

/// The trap that the draws from `state` on put on a tile of a room's
/// floor: the first draw decides whether the tile is trapped, and for a
/// trapped tile the second decides the kind of the trap.
pub open spec fn rolled_trap(state: u64) -> Option<Trap> {
    if crate::rng::scale_to_range(1, TRAP_ROLL_HIGH as int, crate::rng::output(state))
        == TRAP_ROLL_HIT {
        Some(
            Trap {
                triggered: false,
                trap_type: if crate::rng::output(crate::rng::next_state(state)) > u32::MAX / 2 {
                    TrapType::Teleport
                } else {
                    TrapType::SpawnMonster
                },
            },
        )
    } else {
        None
    }
}

/// The state of the generator when the draw for the potion is made.
pub open spec fn potion_state(state: u64) -> u64 {
    if rolled_trap(state) is Some {
        crate::rng::next_state(crate::rng::next_state(state))
    } else {
        crate::rng::next_state(state)
    }
}

/// The items that the draws from `state` on lay on the tile `pos` of a
/// room's floor: one potion of regeneration, or nothing.
pub open spec fn rolled_items(pos: IVec2, state: u64) -> Seq<ItemInfo> {
    if crate::rng::scale_to_range(
        0,
        ITEM_ROLL_HIGH as int,
        crate::rng::output(potion_state(state)),
    ) == ITEM_ROLL_HIT {
        seq![
            (ItemInfo {
                cursed: false,
                item_type: ItemType::Potion(PotionType::Regeneration),
                tile_pos: Some(pos),
                stack_count: Some(1u8),
            }),
        ]
    } else {
        Seq::empty()
    }
}

/// The state of the generator after the draws for one tile.
pub open spec fn after_roll(state: u64) -> u64 {
    crate::rng::next_state(potion_state(state))
}

/// The state of the generator after the draws for `n` tiles.
pub open spec fn after_rolls(state: u64, n: nat) -> u64
    decreases n,
{
    if n == 0 {
        state
    } else {
        after_roll(after_rolls(state, (n - 1) as nat))
    }
}

/// Whether `o` is the tile of a room's floor that the draws from `state`
/// on give.
pub open spec fn is_rolled(o: Object, state: u64) -> bool {
    &&& o.is_floor
    &&& o.door is None
    &&& o.effects@.len() == 0
    &&& !o.has_been_seen
    &&& !o.currently_visible
    &&& o.trap == rolled_trap(state)
    &&& o.items@ == rolled_items(o.pos, state)
}

/// One tile of a room's floor. Three draws decide what is on it: whether it
/// is trapped, which kind of trap it is (drawn only for a trapped tile), and
/// whether a potion lies on it.
pub fn roll_floor_tile(pos: IVec2, rng: &mut Rng) -> (o: Object)
    ensures
        o.pos == pos,
        is_rolled(o, old(rng).state),
        is_room_floor(o),
        final(rng).state == after_roll(old(rng).state),
{
    // 1 in 249 chance of being a trapped tile
    let is_trap: bool = rng.gen_range(1, TRAP_ROLL_HIGH) == TRAP_ROLL_HIT;
    let trap = if is_trap {
        let teleport = rng.rand() > u32::MAX / 2;
        Some(
            Trap {
                triggered: false,
                trap_type: if teleport {
                    TrapType::Teleport
                } else {
                    TrapType::SpawnMonster
                },
            },
        )
    } else {
        None
    };
    let mut items: Vec<ItemInfo> = Vec::new();
    if rng.gen_range(0, ITEM_ROLL_HIGH) == ITEM_ROLL_HIT {
        items.push(ItemInfo::new(ItemType::Potion(PotionType::Regeneration), Some(pos)));
    }
    assert(items@ =~= rolled_items(pos, old(rng).state));
    Object {
        pos,
        is_floor: true,
        has_been_seen: false,
        currently_visible: false,
        door: None,
        items,
        trap,
        effects: Vec::new(),
    }
}

/// The number that the tile `pos` has among the tiles over which the room
/// at `site` lays its floor, counted from 0, column by column from the top
/// left corner of the wall.
pub open spec fn tile_number(site: RoomSite, pos: IVec2) -> int {
    (pos.x - site.top_left.x) * (site.bottom_right.y - site.top_left.y) + (pos.y
        - site.top_left.y)
}

/// The number of tiles over which the room at `site` lays its floor.
pub open spec fn floor_area(site: RoomSite) -> int {
    (site.bottom_right.x - site.top_left.x) * (site.bottom_right.y - site.top_left.y)
}

/// Whether `o` is the tile that the room at `site` lays at the position of
/// `o` when the floor of the room is drawn from `state` on.
pub open spec fn is_rolled_in(o: Object, site: RoomSite, state: u64) -> bool {
    is_rolled(o, after_rolls(state, tile_number(site, o.pos) as nat))
}

impl Room {
    /// The tiles of the room's wall as objects, each with the door that the
    /// room has there.
    pub fn generate_wall_objects(&self) -> (objects: Vec<Object>)
        requires
            self.top_left.x <= self.bottom_right.x,
            self.top_left.y <= self.bottom_right.y,
        ensures
            forall|k: int|
                0 <= k < objects@.len() ==> self.on_wall((#[trigger] objects@[k]).pos)
                    && is_room_wall(objects@[k], *self),
            forall|p: IVec2|
                self.on_wall(p) ==> exists|k: int|
                    0 <= k < objects@.len() && (#[trigger] objects@[k]).pos == p,
    {
        let walls = self.generate_walls();
        let mut objects: Vec<Object> = Vec::new();
        let mut i: usize = 0;
        while i < walls.len()
            invariant
                i <= walls@.len(),
                objects@.len() == i,
                forall|p: IVec2| walls@.contains(p) <==> self.on_wall(p),
                forall|k: int|
                    0 <= k < i ==> (#[trigger] objects@[k]).pos == walls@[k] && is_room_wall(
                        objects@[k],
                        *self,
                    ),
            decreases walls@.len() - i,
        {
            let w_pos = walls[i];
            let door = find_door(&self.doors, w_pos);
            objects.push(
                Object {
                    pos: w_pos,
                    is_floor: false,
                    has_been_seen: false,
                    currently_visible: false,
                    items: Vec::new(),
                    door,
                    trap: None,
                    effects: Vec::new(),
                },
            );
            i = i + 1;
        }
        proof {
            assert forall|k: int| 0 <= k < objects@.len() implies self.on_wall(
                (#[trigger] objects@[k]).pos,
            ) by {
                assert(walls@.contains(walls@[k]));
            }
            assert forall|p: IVec2| self.on_wall(p) implies exists|k: int|
                0 <= k < objects@.len() && (#[trigger] objects@[k]).pos == p by {
                assert(walls@.contains(p));
                let k = choose|k: int| 0 <= k < walls@.len() && walls@[k] == p;
                assert(objects@[k].pos == p);
            }
        }
        objects
    }

    /// The tiles of the room's floor as objects, column by column from the
    /// top left corner of the wall. The tiles that fall on the wall are
    /// rolled like the others; the wall is laid over them afterwards.
    pub fn generate_floor(&self, rng: &mut Rng) -> (objects: Vec<Object>)
        requires
            site_of(*self).valid(),
        ensures
            forall|k: int|
                0 <= k < objects@.len() ==> in_floor_range(
                    site_of(*self),
                    (#[trigger] objects@[k]).pos,
                ) && is_room_floor(objects@[k]) && is_rolled_in(
                    objects@[k],
                    site_of(*self),
                    old(rng).state,
                ),
            forall|p: IVec2|
                in_floor_range(site_of(*self), p) ==> exists|k: int|
                    0 <= k < objects@.len() && (#[trigger] objects@[k]).pos == p,
            final(rng).state == after_rolls(old(rng).state, floor_area(site_of(*self)) as nat),
    {
        let mut objects: Vec<Object> = Vec::new();
        let mut x: i32 = self.top_left.x;
        let ghost height = self.bottom_right.y - self.top_left.y;
        assert((x - self.top_left.x) * height == 0) by (nonlinear_arith)
            requires
                x == self.top_left.x,
        ;
        while x < self.bottom_right.x
            invariant
                site_of(*self).valid(),
                self.top_left.x <= x <= self.bottom_right.x,
                height == self.bottom_right.y - self.top_left.y,
                objects@.len() == (x - self.top_left.x) * height,
                rng.state == after_rolls(old(rng).state, objects@.len()),
                forall|k: int|
                    0 <= k < objects@.len() ==> in_floor_range(
                        site_of(*self),
                        (#[trigger] objects@[k]).pos,
                    ) && is_room_floor(objects@[k]) && is_rolled_in(
                        objects@[k],
                        site_of(*self),
                        old(rng).state,
                    ),
                forall|p: IVec2|
                    in_floor_range(site_of(*self), p) && p.x < x ==> exists|k: int|
                        0 <= k < objects@.len() && (#[trigger] objects@[k]).pos == p,
            decreases self.bottom_right.x - x,
        {
            let mut y: i32 = self.top_left.y;
            while y < self.bottom_right.y
                invariant
                    site_of(*self).valid(),
                    self.top_left.x <= x < self.bottom_right.x,
                    self.top_left.y <= y <= self.bottom_right.y,
                    height == self.bottom_right.y - self.top_left.y,
                    objects@.len() == (x - self.top_left.x) * height + (y - self.top_left.y),
                    rng.state == after_rolls(old(rng).state, objects@.len()),
                    forall|k: int|
                        0 <= k < objects@.len() ==> in_floor_range(
                            site_of(*self),
                            (#[trigger] objects@[k]).pos,
                        ) && is_room_floor(objects@[k]) && is_rolled_in(
                            objects@[k],
                            site_of(*self),
                            old(rng).state,
                        ),
                    forall|p: IVec2|
                        in_floor_range(site_of(*self), p) && (p.x < x || (p.x == x && p.y < y))
                            ==> exists|k: int|
                            0 <= k < objects@.len() && (#[trigger] objects@[k]).pos == p,
                decreases self.bottom_right.y - y,
            {
                let ghost before = objects@;
                let pos = IVec2 { x, y };
                let o = roll_floor_tile(pos, rng);
                objects.push(o);
                proof {
                    assert forall|p: IVec2|
                        in_floor_range(site_of(*self), p) && (p.x < x || (p.x == x && p.y < y + 1))
                        implies exists|k: int|
                        0 <= k < objects@.len() && (#[trigger] objects@[k]).pos == p by {
                        if p == pos {
                            assert(objects@[before.len() as int].pos == p);
                        } else {
                            let k = choose|k: int|
                                0 <= k < before.len() && (#[trigger] before[k]).pos == p;
                            assert(objects@[k].pos == p);
                        }
                    }
                }
                y = y + 1;
            }
            assert((x + 1 - self.top_left.x) * height == (x - self.top_left.x) * height + height)
                by (nonlinear_arith);
            x = x + 1;
        }
        objects
    }
}

/// Whether one of `objects` stands at `pos`.
pub open spec fn covers(objects: Seq<Object>, pos: IVec2) -> bool {
    exists|k: int| 0 <= k < objects.len() && (#[trigger] objects[k]).pos == pos
}

/// Lays each of `objects` on the floor, in the place of the tile at its
/// position. Objects off the map are dropped.
pub fn place_objects(floor: &mut Floor, objects: Vec<Object>)
    requires
        old(floor).wf(),
    ensures
        final(floor).wf(),
        laid_over(old(floor).objects@, final(floor).objects@, objects@),
        forall|i: int|
            0 <= i < final(floor).objects@.len() ==> if covers(objects@, tile_at(i)) {
                exists|k: int|
                    0 <= k < objects@.len() && (#[trigger] objects@[k]).pos == tile_at(i)
                        && final(floor).objects@[i] == objects@[k]
            } else {
                #[trigger] final(floor).objects@[i] == old(floor).objects@[i]
            },
{
    let mut objects = objects;
    let ghost all = objects@;
    loop
        invariant
            floor.wf(),
            objects@.len() <= all.len(),
            objects@ == all.take(objects@.len() as int),
            forall|i: int|
                0 <= i < floor.objects@.len() ==> if covers(
                    all.skip(objects@.len() as int),
                    tile_at(i),
                ) {
                    exists|k: int|
                        objects@.len() <= k < all.len() && (#[trigger] all[k]).pos == tile_at(i)
                            && floor.objects@[i] == all[k]
                } else {
                    #[trigger] floor.objects@[i] == old(floor).objects@[i]
                },
        ensures
            floor.wf(),
            objects@.len() == 0,
            forall|i: int|
                0 <= i < floor.objects@.len() ==> if covers(all, tile_at(i)) {
                    exists|k: int|
                        0 <= k < all.len() && (#[trigger] all[k]).pos == tile_at(i)
                            && floor.objects@[i] == all[k]
                } else {
                    #[trigger] floor.objects@[i] == old(floor).objects@[i]
                },
        decreases objects@.len(),
    {
        let ghost n = objects@.len() as int;
        let ghost before = floor.objects@;
        match objects.pop() {
            Some(o) => {
                let ghost placed = o;
                let ghost pos = o.pos;
                assert(placed == all[n - 1]);
                assert(objects@ =~= all.take(n - 1));
                let done = floor.set_object(o);
                proof {
                    let done_before = all.skip(n);
                    let done_now = all.skip(n - 1);
                    assert(done_now[0] == placed);
                    assert forall|i: int| 0 <= i < floor.objects@.len() implies if covers(
                        done_now,
                        tile_at(i),
                    ) {
                        exists|k: int|
                            n - 1 <= k < all.len() && (#[trigger] all[k]).pos == tile_at(i)
                                && floor.objects@[i] == all[k]
                    } else {
                        #[trigger] floor.objects@[i] == old(floor).objects@[i]
                    } by {
                        lemma_tile_round_trip(i);
                        if in_bounds(pos) {
                            lemma_index_round_trip(pos);
                        }
                        if covers(done_before, tile_at(i)) {
                            let k = choose|k: int|
                                0 <= k < done_before.len() && (#[trigger] done_before[k]).pos
                                    == tile_at(i);
                            assert(done_now[k + 1].pos == tile_at(i));
                        }
                        if covers(done_now, tile_at(i)) {
                            let k = choose|k: int|
                                0 <= k < done_now.len() && (#[trigger] done_now[k]).pos == tile_at(
                                    i,
                                );
                            if k > 0 {
                                assert(done_before[k - 1].pos == tile_at(i));
                            }
                        }
                        if tile_at(i) == pos {
                            assert(floor.objects@[i] == all[n - 1]);
                        } else {
                            assert(floor.objects@[i] == before[i]);
                        }
                    }
                }
            },
            None => {
                assert(all.skip(0) =~= all);
                break ;
            },
        }
    }
}

/// Whether a hallway meets the wall of the room at `site` at a tile that is
/// not a corner, so that the room gets a door.
pub open spec fn site_has_door(site: RoomSite, hallways: Seq<IVec2>) -> bool {
    exists|p: IVec2|
        #![trigger hallways.contains(p)]
        hallways.contains(p) && site.on_wall(p) && !site.is_corner(p)
}

/// The doors of `room` are the places where `hallways` meet its wall: each
/// door is closed and stands on a hallway tile, and every tile of the wall,
/// off the corners, that is a hallway tile has a door.
pub open spec fn doors_from(room: Room, hallways: Seq<IVec2>) -> bool {
    &&& forall|k: int|
        0 <= k < room.doors@.len() ==> hallways.contains((#[trigger] room.doors@[k]).pos)
            && !room.doors@[k].is_open
    &&& forall|p: IVec2|
        #![trigger hallways.contains(p)]
        room.on_wall(p) && !room.is_corner(p) && hallways.contains(p) ==> exists|k: int|
            0 <= k < room.doors@.len() && (#[trigger] room.doors@[k]).pos == p
}

/// The doors along the first `n` of the wall tiles `walls` of a room at
/// `site`: a closed door for every tile, off the corners, that is a hallway
/// tile.
pub open spec fn doors_along(walls: Seq<IVec2>, site: RoomSite, hallways: Seq<IVec2>, n: int) -> Seq<
    Door,
>
    decreases n,
{
    if n <= 0 || n > walls.len() {
        Seq::empty()
    } else if !site.is_corner(walls[n - 1]) && hallways.contains(walls[n - 1]) {
        doors_along(walls, site, hallways, n - 1).push(Door { pos: walls[n - 1], is_open: false })
    } else {
        doors_along(walls, site, hallways, n - 1)
    }
}

/// The doors of a room at `site`, in the order of its wall tiles.
pub open spec fn site_doors(site: RoomSite, hallways: Seq<IVec2>) -> Seq<Door> {
    doors_along(
        crate::map::wall_tiles(site.top_left, site.bottom_right),
        site,
        hallways,
        crate::map::wall_tiles(site.top_left, site.bottom_right).len() as int,
    )
}

/// The room at `site`, with a closed door wherever a hallway meets its
/// wall off the corners.
pub fn make_room(site: RoomSite, hallways: &Vec<IVec2>) -> (room: Room)
    requires
        site.valid(),
    ensures
        site_of(room) == site,
        room.wf(),
        doors_from(room, hallways@),
        room.doors@.len() > 0 <==> site_has_door(site, hallways@),
        room.doors@ == site_doors(site, hallways@),
{
    let outline = Room { top_left: site.top_left, bottom_right: site.bottom_right, doors: Vec::new() };
    let walls = outline.generate_walls();
    let mut doors: Vec<Door> = Vec::new();
    let mut i: usize = 0;
    while i < walls.len()
        invariant
            i <= walls@.len(),
            site.valid(),
            outline.top_left == site.top_left,
            outline.bottom_right == site.bottom_right,
            forall|p: IVec2| walls@.contains(p) <==> outline.on_wall(p),
            doors@ == doors_along(walls@, site, hallways@, i as int),
            forall|k: int|
                0 <= k < doors@.len() ==> hallways@.contains((#[trigger] doors@[k]).pos)
                    && !doors@[k].is_open && outline.on_wall(doors@[k].pos) && !outline.is_corner(
                    doors@[k].pos,
                ),
            forall|j: int|
                0 <= j < i && !outline.is_corner(#[trigger] walls@[j]) && hallways@.contains(
                    walls@[j],
                ) ==> exists|k: int| 0 <= k < doors@.len() && (#[trigger] doors@[k]).pos == walls@[j],
        decreases walls@.len() - i,
    {
        let door_pos = walls[i];
        assert(walls@.contains(door_pos));
        // No doors in the corners of rooms
        let corner = (door_pos.x == site.top_left.x || door_pos.x == site.bottom_right.x) && (
        door_pos.y == site.top_left.y || door_pos.y == site.bottom_right.y);
        if !corner && holds_tile(hallways, door_pos) {
            let ghost before = doors@;
            doors.push(Door { pos: door_pos, is_open: false });
            proof {
                assert forall|j: int|
                    0 <= j < i + 1 && !outline.is_corner(#[trigger] walls@[j])
                        && hallways@.contains(walls@[j]) implies exists|k: int|
                    0 <= k < doors@.len() && (#[trigger] doors@[k]).pos == walls@[j] by {
                    if j < i {
                        let k = choose|k: int|
                            0 <= k < before.len() && (#[trigger] before[k]).pos == walls@[j];
                        assert(doors@[k].pos == walls@[j]);
                    } else {
                        assert(doors@[before.len() as int].pos == walls@[j]);
                    }
                }
            }
        }
        i = i + 1;
    }
    let ghost doors_view = doors@;
    let room = Room { top_left: site.top_left, bottom_right: site.bottom_right, doors };
    proof {
        assert(room.doors@ == doors_view);
        assert forall|p: IVec2|
            #![trigger hallways@.contains(p)]
            room.on_wall(p) && !room.is_corner(p) && hallways@.contains(p) implies exists|k: int|
            0 <= k < room.doors@.len() && (#[trigger] room.doors@[k]).pos == p by {
            assert(outline.on_wall(p));
            assert(walls@.contains(p));
            let j = choose|j: int| 0 <= j < walls@.len() && walls@[j] == p;
            assert(!outline.is_corner(walls@[j]) && hallways@.contains(walls@[j]));
            let k = choose|k: int|
                0 <= k < doors_view.len() && (#[trigger] doors_view[k]).pos == walls@[j];
            assert(room.doors@[k].pos == p);
        }
        if room.doors@.len() > 0 {
            let p = room.doors@[0].pos;
            assert(hallways@.contains(p) && outline.on_wall(p) && !outline.is_corner(p));
            assert(site.on_wall(p) && !site.is_corner(p));
            assert(site_has_door(site, hallways@));
        }
        if site_has_door(site, hallways@) {
            let p = choose|p: IVec2|
                #![trigger hallways@.contains(p)]
                hallways@.contains(p) && site.on_wall(p) && !site.is_corner(p);
            assert(room.on_wall(p) && !room.is_corner(p));
        }
    }
    room
}

/// The rooms at those of `sites` that a hallway reaches, in the order of
/// the sites. A site that no hallway reaches gets no room.
pub fn make_rooms(sites: &Vec<RoomSite>, hallways: &Vec<IVec2>) -> (rooms: Vec<Room>)
    requires
        sites_apart(sites@),
    ensures
        rooms_apart(rooms@),
        forall|k: int|
            0 <= k < rooms@.len() ==> (#[trigger] rooms@[k]).doors@.len() > 0 && doors_from(
                rooms@[k],
                hallways@,
            ),
        forall|k: int| 0 <= k < rooms@.len() ==> sites@.contains(site_of(#[trigger] rooms@[k])),
        rooms@.len() == 0 <==> forall|k: int|
            0 <= k < sites@.len() ==> !site_has_door(#[trigger] sites@[k], hallways@),
        room_sites(rooms@) == kept_sites(sites@, hallways@, sites@.len() as int),
        forall|k: int|
            0 <= k < rooms@.len() ==> (#[trigger] rooms@[k]).doors@ == site_doors(
                site_of(rooms@[k]),
                hallways@,
            ),
{
    let mut rooms: Vec<Room> = Vec::new();
    assert(room_sites(rooms@) =~= kept_sites(sites@, hallways@, 0));
    // The site that each room stands on.
    let ghost mut source: Seq<int> = Seq::empty();
    let mut i: usize = 0;
    while i < sites.len()
        invariant
            i <= sites@.len(),
            sites_apart(sites@),
            source.len() == rooms@.len(),
            forall|k: int|
                0 <= k < rooms@.len() ==> 0 <= #[trigger] source[k] < i && site_of(rooms@[k])
                    == sites@[source[k]] && rooms@[k].wf() && rooms@[k].doors@.len() > 0
                    && doors_from(rooms@[k], hallways@),
            forall|a: int, b: int| 0 <= a < b < source.len() ==> source[a] < source[b],
            rooms@.len() == 0 <==> forall|k: int|
                0 <= k < i ==> !site_has_door(#[trigger] sites@[k], hallways@),
            room_sites(rooms@) == kept_sites(sites@, hallways@, i as int),
            forall|k: int|
                0 <= k < rooms@.len() ==> (#[trigger] rooms@[k]).doors@ == site_doors(
                    site_of(rooms@[k]),
                    hallways@,
                ),
        decreases sites@.len() - i,
    {
        let room = make_room(sites[i], hallways);
        let ghost rooms_before = rooms@;
        let ghost source_before = source;
        // Only keep rooms that have a door
        if room.doors.len() > 0 {
            rooms.push(room);
            proof {
                source = source.push(i as int);
                assert(sites@[i as int].valid());
                assert forall|k: int| 0 <= k < rooms@.len() implies 0 <= #[trigger] source[k] < i
                    + 1 && site_of(rooms@[k]) == sites@[source[k]] && rooms@[k].wf()
                    && rooms@[k].doors@.len() > 0 && doors_from(rooms@[k], hallways@) by {
                    if k < rooms_before.len() {
                        assert(rooms@[k] == rooms_before[k]);
                        assert(source[k] == source_before[k]);
                    } else {
                        assert(rooms@[k] == room);
                        assert(source[k] == i);
                    }
                }
                assert forall|a: int, b: int| 0 <= a < b < source.len() implies source[a]
                    < source[b] by {
                    assert(source[a] == source_before[a]);
                    if b < source_before.len() {
                        assert(source[b] == source_before[b]);
                    }
                }
                assert(room_sites(rooms@) =~= room_sites(rooms_before).push(sites@[i as int]));
            }
        }
        i = i + 1;
    }
    proof {
        assert forall|a: int, b: int|
            0 <= a < rooms@.len() && 0 <= b < rooms@.len() && a != b implies !site_of(
            #[trigger] rooms@[a],
        ).too_close(site_of(#[trigger] rooms@[b])) by {
            assert(source[a] != source[b]);
            assert(!sites@[source[a]].too_close(sites@[source[b]]));
        }
        assert forall|k: int| 0 <= k < rooms@.len() implies sites@.contains(
            site_of(#[trigger] rooms@[k]),
        ) by {
            assert(sites@[source[k]] == site_of(rooms@[k]));
        }
        assert forall|k: int| 0 <= k < rooms@.len() implies (#[trigger] rooms@[k]).wf() && site_of(
            rooms@[k],
        ).valid() by {
            assert(sites@[source[k]].valid());
        }
        assert forall|k: int| 0 <= k < rooms@.len() implies (#[trigger] rooms@[k]).doors@.len() > 0
            && doors_from(rooms@[k], hallways@) by {
            assert(0 <= source[k]);
        }
    }
    rooms
}

/// The hallway tiles that are not strictly inside any room.
pub fn prune_hallways(hallways: &Vec<IVec2>, rooms: &Vec<Room>) -> (kept: Vec<IVec2>)
    requires
        off_border(hallways@),
    ensures
        off_border(kept@),
        forall|p: IVec2| kept@.contains(p) <==> (hallways@.contains(p) && !inside_any(rooms@, p)),
{
    let mut kept: Vec<IVec2> = Vec::new();
    let mut i: usize = 0;
    while i < hallways.len()
        invariant
            i <= hallways@.len(),
            off_border(hallways@),
            off_border(kept@),
            forall|p: IVec2|
                kept@.contains(p) <==> (hallways@.take(i as int).contains(p) && !inside_any(
                    rooms@,
                    p,
                )),
        decreases hallways@.len() - i,
    {
        let h = hallways[i];
        let mut inside: bool = false;
        let mut k: usize = 0;
        while k < rooms.len()
            invariant
                k <= rooms@.len(),
                inside <==> exists|j: int| 0 <= j < k && (#[trigger] rooms@[j]).inside(h),
            decreases rooms@.len() - k,
        {
            if rooms[k].inside_room(h) {
                inside = true;
            }
            k = k + 1;
        }
        let ghost before = kept@;
        let ghost seen_before = hallways@.take(i as int);
        if !inside {
            kept.push(h);
        }
        proof {
            assert(hallways@.take(i + 1) =~= seen_before.push(h));
            lemma_push_contains(seen_before, h);
            lemma_push_contains(before, h);
            assert(inside == inside_any(rooms@, h));
            assert forall|p: IVec2|
                kept@.contains(p) <==> (hallways@.take(i + 1).contains(p) && !inside_any(
                    rooms@,
                    p,
                )) by {
                assert(before.contains(p) <==> (seen_before.contains(p) && !inside_any(rooms@, p)));
                assert(seen_before.push(h).contains(p) <==> (seen_before.contains(p) || p == h));
                if inside {
                    assert(kept@ == before);
                } else {
                    assert(kept@ == before.push(h));
                    assert(before.push(h).contains(p) <==> (before.contains(p) || p == h));
                }
            }
        }
        i = i + 1;
    }
    assert(hallways@.take(i as int) =~= hallways@);
    kept
}

/// No tile is strictly inside one room and on the wall of a room.
pub proof fn lemma_inside_not_on_wall(rooms: Seq<Room>, a: int, b: int, pos: IVec2)
    requires
        rooms_apart(rooms),
        0 <= a < rooms.len(),
        0 <= b < rooms.len(),
        rooms[a].inside(pos),
    ensures
        !rooms[b].on_wall(pos),
{
    if a != b {
        assert(!site_of(rooms[a]).too_close(site_of(rooms[b])));
    }
}

/// No tile is on the walls of two rooms.
pub proof fn lemma_walls_disjoint(rooms: Seq<Room>, a: int, b: int, pos: IVec2)
    requires
        rooms_apart(rooms),
        0 <= a < rooms.len(),
        0 <= b < rooms.len(),
        rooms[a].on_wall(pos),
        rooms[b].on_wall(pos),
    ensures
        a == b,
{
    if a != b {
        assert(!site_of(rooms[a]).too_close(site_of(rooms[b])));
    }
}

/// Whether `pos` is in the rectangle over which one of the rooms lays its
/// floor.
pub open spec fn in_any_floor_range(rooms: Seq<Room>, pos: IVec2) -> bool {
    exists|k: int| 0 <= k < rooms.len() && in_floor_range(site_of(#[trigger] rooms[k]), pos)
}

/// What the tiles are once rooms and hallways are laid out: a tile strictly
/// inside a room is a tile of its floor; a tile on the wall of a room is
/// wall, with the door that the room has there; any other tile is bare, and
/// it is floor exactly if it is a hallway tile.
pub open spec fn laid_out(floor: Floor, rooms: Seq<Room>, hallways: Seq<IVec2>) -> bool {
    forall|i: int|
        0 <= i < floor.objects@.len() ==> {
            let o = #[trigger] floor.objects@[i];
            let p = tile_at(i);
            &&& inside_any(rooms, p) ==> is_room_floor(o)
            &&& forall|k: int|
                0 <= k < rooms.len() && (#[trigger] rooms[k]).on_wall(p) ==> is_room_wall(
                    o,
                    rooms[k],
                )
            &&& !inside_any(rooms, p) && !on_any_wall(rooms, p) ==> is_bare(o) && (o.is_floor
                <==> hallways.contains(p))
        }
}

/// The places of the rooms.
pub open spec fn room_sites(rooms: Seq<Room>) -> Seq<RoomSite> {
    Seq::new(rooms.len(), |k: int| site_of(rooms[k]))
}

/// The state of the generator when the floor of the room at the `n`-th
/// site is drawn, the floors being drawn one after the other from `state`
/// on.
pub open spec fn sites_rolled(sites: Seq<RoomSite>, state: u64, n: int) -> u64
    decreases n,
{
    if n <= 0 || n > sites.len() {
        state
    } else {
        after_rolls(sites_rolled(sites, state, n - 1), floor_area(sites[n - 1]) as nat)
    }
}

/// The state of the generator when the floor of the `n`-th room is drawn.
pub open spec fn rooms_rolled(rooms: Seq<Room>, state: u64, n: int) -> u64 {
    sites_rolled(room_sites(rooms), state, n)
}

/// The floor of one more room takes as many draws as it has tiles.
pub proof fn lemma_rooms_rolled(rooms: Seq<Room>, state: u64, n: int)
    requires
        0 <= n < rooms.len(),
    ensures
        rooms_rolled(rooms, state, n + 1) == after_rolls(
            rooms_rolled(rooms, state, n),
            floor_area(site_of(rooms[n])) as nat,
        ),
{
    assert(room_sites(rooms)[n] == site_of(rooms[n]));
}

/// The sites, among the first `n`, that a hallway reaches.
pub open spec fn kept_sites(sites: Seq<RoomSite>, hallways: Seq<IVec2>, n: int) -> Seq<RoomSite>
    decreases n,
{
    if n <= 0 || n > sites.len() {
        Seq::empty()
    } else if site_has_door(sites[n - 1], hallways) {
        kept_sites(sites, hallways, n - 1).push(sites[n - 1])
    } else {
        kept_sites(sites, hallways, n - 1)
    }
}

/// Whether every tile over which one of the first `n` rooms lays its floor
/// is the tile that is drawn for it.
pub open spec fn floors_rolled(objects: Seq<Object>, rooms: Seq<Room>, state: u64, n: int) -> bool {
    forall|i: int, k: int|
        #![trigger objects[i], rooms[k]]
        0 <= i < objects.len() && 0 <= k < n && k < rooms.len() && in_floor_range(
            site_of(rooms[k]),
            tile_at(i),
        ) ==> is_rolled_in(objects[i], site_of(rooms[k]), rooms_rolled(rooms, state, k))
}

/// Whether every tile strictly inside a room is the tile that is drawn for
/// it.
pub open spec fn insides_rolled(objects: Seq<Object>, rooms: Seq<Room>, state: u64) -> bool {
    forall|i: int, k: int|
        #![trigger objects[i], rooms[k]]
        0 <= i < objects.len() && 0 <= k < rooms.len() && rooms[k].inside(tile_at(i))
            ==> is_rolled_in(objects[i], site_of(rooms[k]), rooms_rolled(rooms, state, k))
}

/// Whether `after` is `before` with each of `laid` in the place of the tile
/// at its position.
pub open spec fn laid_over(before: Seq<Object>, after: Seq<Object>, laid: Seq<Object>) -> bool {
    &&& after.len() == before.len()
    &&& forall|i: int|
        0 <= i < after.len() ==> if covers(laid, tile_at(i)) {
            exists|k: int|
                0 <= k < laid.len() && (#[trigger] laid[k]).pos == tile_at(i) && after[i]
                    == laid[k]
        } else {
            #[trigger] after[i] == before[i]
        }
}

/// Laying the floor of one more room keeps the floors that are laid as
/// they were drawn.
pub proof fn lemma_floor_laid(
    before: Seq<Object>,
    after: Seq<Object>,
    laid: Seq<Object>,
    rooms: Seq<Room>,
    state: u64,
    r: int,
)
    requires
        rooms_apart(rooms),
        0 <= r < rooms.len(),
        floors_rolled(before, rooms, state, r),
        laid_over(before, after, laid),
        forall|k: int|
            0 <= k < laid.len() ==> in_floor_range(site_of(rooms[r]), (#[trigger] laid[k]).pos)
                && is_rolled_in(laid[k], site_of(rooms[r]), rooms_rolled(rooms, state, r)),
        forall|p: IVec2| in_floor_range(site_of(rooms[r]), p) ==> covers(laid, p),
    ensures
        floors_rolled(after, rooms, state, r + 1),
{
    assert forall|i: int, k: int|
        #![trigger after[i], rooms[k]]
        0 <= i < after.len() && 0 <= k < r + 1 && k < rooms.len() && in_floor_range(
            site_of(rooms[k]),
            tile_at(i),
        ) implies is_rolled_in(after[i], site_of(rooms[k]), rooms_rolled(rooms, state, k)) by {
        let p = tile_at(i);
        if k == r {
            assert(covers(laid, p));
            let j = choose|j: int|
                0 <= j < laid.len() && (#[trigger] laid[j]).pos == p && after[i] == laid[j];
            assert(is_rolled_in(laid[j], site_of(rooms[r]), rooms_rolled(rooms, state, r)));
        } else {
            assert(!site_of(rooms[k]).too_close(site_of(rooms[r])));
            if covers(laid, p) {
                let j = choose|j: int| 0 <= j < laid.len() && (#[trigger] laid[j]).pos == p;
                assert(in_floor_range(site_of(rooms[r]), laid[j].pos));
            }
            assert(after[i] == before[i]);
            assert(is_rolled_in(before[i], site_of(rooms[k]), rooms_rolled(rooms, state, k)));
        }
    }
}

/// Laying the wall of a room keeps the tiles strictly inside the rooms as
/// they were drawn.
pub proof fn lemma_wall_laid(
    before: Seq<Object>,
    after: Seq<Object>,
    laid: Seq<Object>,
    rooms: Seq<Room>,
    state: u64,
    w: int,
)
    requires
        rooms_apart(rooms),
        0 <= w < rooms.len(),
        insides_rolled(before, rooms, state),
        laid_over(before, after, laid),
        forall|k: int| 0 <= k < laid.len() ==> rooms[w].on_wall((#[trigger] laid[k]).pos),
    ensures
        insides_rolled(after, rooms, state),
{
    assert forall|i: int, k: int|
        #![trigger after[i], rooms[k]]
        0 <= i < after.len() && 0 <= k < rooms.len() && rooms[k].inside(
            tile_at(i),
        ) implies is_rolled_in(after[i], site_of(rooms[k]), rooms_rolled(rooms, state, k)) by {
        let p = tile_at(i);
        lemma_inside_not_on_wall(rooms, k, w, p);
        if covers(laid, p) {
            let j = choose|j: int| 0 <= j < laid.len() && (#[trigger] laid[j]).pos == p;
            assert(rooms[w].on_wall(laid[j].pos));
        }
        assert(after[i] == before[i]);
        assert(is_rolled_in(before[i], site_of(rooms[k]), rooms_rolled(rooms, state, k)));
    }
}

/// Lays out the tiles of a level: everything is wall at first; then the
/// hallways are laid, then the floor of each room, then the wall of each
/// room with its doors.
pub fn build_floor(rooms: &Vec<Room>, hallways: &Vec<IVec2>, rng: &mut Rng) -> (floor: Floor)
    requires
        rooms_apart(rooms@),
    ensures
        floor.wf(),
        laid_out(floor, rooms@, hallways@),
        insides_rolled(floor.objects@, rooms@, old(rng).state),
        final(rng).state == rooms_rolled(rooms@, old(rng).state, rooms@.len() as int),
{
    let mut floor = Floor::solid();
    // The hallways
    let mut h: usize = 0;
    while h < hallways.len()
        invariant
            h <= hallways@.len(),
            floor.wf(),
            *rng == *old(rng),
            forall|i: int|
                0 <= i < floor.objects@.len() ==> is_bare(#[trigger] floor.objects@[i]) && (
                floor.objects@[i].is_floor <==> hallways@.take(h as int).contains(tile_at(i))),
        decreases hallways@.len() - h,
    {
        let pos = hallways[h];
        let ghost before = floor.objects@;
        let ghost done = hallways@.take(h as int);
        let _ = floor.set_object(Object::floor(pos));
        proof {
            assert(hallways@.take(h + 1) =~= done.push(pos));
            lemma_push_contains(done, pos);
            assert forall|i: int| 0 <= i < floor.objects@.len() implies is_bare(
                #[trigger] floor.objects@[i],
            ) && (floor.objects@[i].is_floor <==> hallways@.take(h + 1).contains(tile_at(i))) by {
                lemma_tile_round_trip(i);
                if in_bounds(pos) {
                    lemma_index_round_trip(pos);
                }
                if tile_at(i) != pos {
                    assert(floor.objects@[i] == before[i]);
                }
            }
        }
        h = h + 1;
    }
    assert(hallways@.take(h as int) =~= hallways@);
    // The floors of the rooms
    let mut r: usize = 0;
    while r < rooms.len()
        invariant
            r <= rooms@.len(),
            floor.wf(),
            rooms_apart(rooms@),
            rng.state == rooms_rolled(rooms@, old(rng).state, r as int),
            floors_rolled(floor.objects@, rooms@, old(rng).state, r as int),
            forall|i: int|
                0 <= i < floor.objects@.len() ==> {
                    let o = #[trigger] floor.objects@[i];
                    if in_any_floor_range(rooms@.take(r as int), tile_at(i)) {
                        is_room_floor(o)
                    } else {
                        is_bare(o) && (o.is_floor <==> hallways@.contains(tile_at(i)))
                    }
                },
        decreases rooms@.len() - r,
    {
        let objects = rooms[r].generate_floor(rng);
        let ghost before = floor.objects@;
        let ghost laid = objects@;
        place_objects(&mut floor, objects);
        proof {
            assert forall|p: IVec2| in_floor_range(site_of(rooms@[r as int]), p) implies covers(
                laid,
                p,
            ) by {
                let k = choose|k: int| 0 <= k < laid.len() && (#[trigger] laid[k]).pos == p;
                assert(laid[k].pos == p);
            }
            lemma_floor_laid(before, floor.objects@, laid, rooms@, old(rng).state, r as int);
            lemma_rooms_rolled(rooms@, old(rng).state, r as int);
        }
        proof {
            let done = rooms@.take(r as int);
            let now = rooms@.take(r + 1);
            assert(now =~= done.push(rooms@[r as int]));
            assert forall|i: int| 0 <= i < floor.objects@.len() implies {
                let o = #[trigger] floor.objects@[i];
                if in_any_floor_range(now, tile_at(i)) {
                    is_room_floor(o)
                } else {
                    is_bare(o) && (o.is_floor <==> hallways@.contains(tile_at(i)))
                }
            } by {
                let p = tile_at(i);
                if in_any_floor_range(done, p) {
                    let k = choose|k: int|
                        0 <= k < done.len() && in_floor_range(site_of(#[trigger] done[k]), p);
                    assert(in_floor_range(site_of(now[k]), p));
                }
                if in_any_floor_range(now, p) {
                    let k = choose|k: int|
                        0 <= k < now.len() && in_floor_range(site_of(#[trigger] now[k]), p);
                    if k < done.len() {
                        assert(in_floor_range(site_of(done[k]), p));
                    }
                }
                if in_floor_range(site_of(rooms@[r as int]), p) {
                    assert(in_floor_range(site_of(now[r as int]), p));
                    assert(covers(laid, p));
                } else {
                    if covers(laid, p) {
                        let k = choose|k: int| 0 <= k < laid.len() && (#[trigger] laid[k]).pos == p;
                        assert(in_floor_range(site_of(rooms@[r as int]), laid[k].pos));
                    }
                    assert(floor.objects@[i] == before[i]);
                }
            }
        }
        r = r + 1;
    }
    assert(rooms@.take(r as int) =~= rooms@);
    assert(insides_rolled(floor.objects@, rooms@, old(rng).state));
    // The walls of the rooms
    let mut w: usize = 0;
    while w < rooms.len()
        invariant
            w <= rooms@.len(),
            floor.wf(),
            rooms_apart(rooms@),
            insides_rolled(floor.objects@, rooms@, old(rng).state),
            rng.state == rooms_rolled(rooms@, old(rng).state, rooms@.len() as int),
            forall|i: int|
                0 <= i < floor.objects@.len() ==> {
                    let o = #[trigger] floor.objects@[i];
                    if on_any_wall(rooms@.take(w as int), tile_at(i)) {
                        exists|k: int|
                            0 <= k < w && (#[trigger] rooms@[k]).on_wall(tile_at(i))
                                && is_room_wall(o, rooms@[k])
                    } else if in_any_floor_range(rooms@, tile_at(i)) {
                        is_room_floor(o)
                    } else {
                        is_bare(o) && (o.is_floor <==> hallways@.contains(tile_at(i)))
                    }
                },
        decreases rooms@.len() - w,
    {
        let objects = rooms[w].generate_wall_objects();
        let ghost before = floor.objects@;
        let ghost laid = objects@;
        place_objects(&mut floor, objects);
        proof {
            lemma_wall_laid(before, floor.objects@, laid, rooms@, old(rng).state, w as int);
        }
        proof {
            let done = rooms@.take(w as int);
            let now = rooms@.take(w + 1);
            assert(now =~= done.push(rooms@[w as int]));
            assert forall|i: int| 0 <= i < floor.objects@.len() implies {
                let o = #[trigger] floor.objects@[i];
                if on_any_wall(now, tile_at(i)) {
                    exists|k: int|
                        0 <= k < w + 1 && (#[trigger] rooms@[k]).on_wall(tile_at(i))
                            && is_room_wall(o, rooms@[k])
                } else if in_any_floor_range(rooms@, tile_at(i)) {
                    is_room_floor(o)
                } else {
                    is_bare(o) && (o.is_floor <==> hallways@.contains(tile_at(i)))
                }
            } by {
                let p = tile_at(i);
                if on_any_wall(done, p) {
                    let k = choose|k: int| 0 <= k < done.len() && (#[trigger] done[k]).on_wall(p);
                    assert(now[k].on_wall(p));
                }
                if on_any_wall(now, p) {
                    let k = choose|k: int| 0 <= k < now.len() && (#[trigger] now[k]).on_wall(p);
                    if k < done.len() {
                        assert(done[k].on_wall(p));
                    }
                }
                if rooms@[w as int].on_wall(p) {
                    assert(now[w as int].on_wall(p));
                    assert(covers(laid, p));
                    let k = choose|k: int|
                        0 <= k < laid.len() && (#[trigger] laid[k]).pos == p
                            && floor.objects@[i] == laid[k];
                    assert(is_room_wall(laid[k], rooms@[w as int]));
                } else {
                    if covers(laid, p) {
                        let k = choose|k: int| 0 <= k < laid.len() && (#[trigger] laid[k]).pos == p;
                        assert(rooms@[w as int].on_wall(laid[k].pos));
                    }
                    assert(floor.objects@[i] == before[i]);
                }
            }
        }
        w = w + 1;
    }
    assert(rooms@.take(w as int) =~= rooms@);
    proof {
        assert forall|i: int| 0 <= i < floor.objects@.len() implies {
            let o = #[trigger] floor.objects@[i];
            let p = tile_at(i);
            &&& inside_any(rooms@, p) ==> is_room_floor(o)
            &&& forall|k: int|
                0 <= k < rooms@.len() && (#[trigger] rooms@[k]).on_wall(p) ==> is_room_wall(
                    o,
                    rooms@[k],
                )
            &&& !inside_any(rooms@, p) && !on_any_wall(rooms@, p) ==> is_bare(o) && (o.is_floor
                <==> hallways@.contains(p))
        } by {
            let o = floor.objects@[i];
            let p = tile_at(i);
            if inside_any(rooms@, p) {
                let a = choose|a: int| 0 <= a < rooms@.len() && (#[trigger] rooms@[a]).inside(p);
                if on_any_wall(rooms@, p) {
                    let b = choose|b: int| 0 <= b < rooms@.len() && (#[trigger] rooms@[b]).on_wall(p);
                    lemma_inside_not_on_wall(rooms@, a, b, p);
                }
                assert(in_floor_range(site_of(rooms@[a]), p));
            }
            assert forall|k: int|
                0 <= k < rooms@.len() && (#[trigger] rooms@[k]).on_wall(p) implies is_room_wall(
                o,
                rooms@[k],
            ) by {
                let b = choose|b: int|
                    0 <= b < rooms@.len() && (#[trigger] rooms@[b]).on_wall(p) && is_room_wall(
                        o,
                        rooms@[b],
                    );
                lemma_walls_disjoint(rooms@, k, b, p);
            }
            if !inside_any(rooms@, p) && !on_any_wall(rooms@, p) {
                if in_any_floor_range(rooms@, p) {
                    let a = choose|a: int|
                        0 <= a < rooms@.len() && in_floor_range(site_of(#[trigger] rooms@[a]), p);
                    assert(rooms@[a].inside(p) || rooms@[a].on_wall(p));
                }
            }
        }
    }
    floor
}

} // verus!
