//! The tile grid of one dungeon level: tiles, doors, traps, rooms, and the
//! queries that movement, sight and pathfinding make of them.

use vstd::prelude::*;
use pathfinding::prelude::astar;
use crate::items::{ItemInfo, ItemType};
use crate::enchantments::{Enchantable, Enchantment, EnchantmentKind};
use crate::monsters::{
    monster_enchanted, monster_living, monster_polygon, monster_pos, monster_views, MonsterKind,
    MonsterObj, MonsterView,
};
use crate::player::Player;
use crate::rng::{next_state, output, scale_to_range, Rng};
use crate::generation::{
    build_floor, inside_any, insides_rolled, kept_sites, laid_out, make_rooms, prune_hallways,
    room_sites, rooms_apart, rooms_rolled, site_of, sites_rolled, RoomSite,
};
use crate::math::{
    clamp_i32, easy_polygon, easy_polygon_spec, floor_div, points_on_circumference, points_on_line,
    circumference, line, polygons_collide, saturate, Angle, AsPolygon, BVec2, IVec2, Polygon, Vec2,
};

verus! {

/// Edge length of a tile in pixels.
pub const TILE_SIZE: usize = 25;

pub const MAP_WIDTH_TILES: usize = 50;

pub const MAP_HEIGHT_TILES: usize = 50;

/// Edge length of a tile in fixed-point units.
pub const TILE_UNITS: i32 = 25000;

/// Half the edge length of a tile in fixed-point units.
pub const HALF_TILE_UNITS: i32 = 12500;

/// How far an entity sees, in tiles, where no other radius is given.
pub const DEFAULT_SIGHT: i32 = 12;

#[derive(Clone, Copy, Debug, PartialEq, Eq, Structural)]
pub enum TrapType {
    Teleport,
    SpawnMonster,
}

#[derive(Clone, Copy, Debug, PartialEq, Eq, Structural)]
pub struct Trap {
    pub triggered: bool,
    pub trap_type: TrapType,
}

#[derive(Clone, Copy, Debug, PartialEq, Eq, Structural)]
pub enum EffectType {
    Slimed,
}

/// Something that lingers on a tile and acts on whoever stands there.
#[derive(Clone, Copy, Debug, PartialEq, Eq, Structural)]
pub struct Effect {
    /// Frames until the effect is gone; `None` for one that stays.
    pub time_til_dissipate: Option<u16>,
    pub effect_type: EffectType,
}

#[derive(Clone, Copy, Debug, PartialEq, Eq, Structural)]
pub struct Door {
    pub pos: IVec2,
    pub is_open: bool,
}

impl Door {
    pub fn open(&mut self)
        ensures
            final(self).is_open,
            final(self).pos == old(self).pos,
    {
        self.is_open = true;
    }

    pub fn close(&mut self)
        ensures
            !final(self).is_open,
            final(self).pos == old(self).pos,
    {
        self.is_open = false;
    }
}

/// One tile of a floor and everything that is on it.
#[derive(Clone, Debug)]
pub struct Object {
    pub pos: IVec2,
    pub is_floor: bool,
    pub has_been_seen: bool,
    pub currently_visible: bool,
    pub items: Vec<ItemInfo>,
    pub door: Option<Door>,
    pub trap: Option<Trap>,
    pub effects: Vec<Effect>,
}

/// The world position of the top left corner of `tile`.
pub open spec fn tile_corner(tile: IVec2) -> Vec2 {
    Vec2 {
        x: clamp_i32(tile.x * TILE_UNITS) as i32,
        y: clamp_i32(tile.y * TILE_UNITS) as i32,
    }
}

/// The world position of the middle of `tile`.
pub open spec fn tile_center(tile: IVec2) -> Vec2 {
    Vec2 {
        x: clamp_i32(tile.x * TILE_UNITS + HALF_TILE_UNITS) as i32,
        y: clamp_i32(tile.y * TILE_UNITS + HALF_TILE_UNITS) as i32,
    }
}

/// The tile in which the world position `v` lies.
pub open spec fn tile_of(v: Vec2) -> IVec2 {
    IVec2 { x: (v.x as int / TILE_UNITS as int) as i32, y: (v.y as int / TILE_UNITS as int) as i32 }
}

/// The square that a tile covers in the world.
pub open spec fn tile_polygon(tile: IVec2) -> Polygon {
    easy_polygon_spec(
        tile_center(tile),
        Vec2 { x: HALF_TILE_UNITS, y: HALF_TILE_UNITS },
        Angle::zero_spec(),
    )
}

/// The world position of the top left corner of a tile.
pub fn tile_to_world(tile: IVec2) -> (v: Vec2)
    ensures
        v == tile_corner(tile),
{
    assert(-0x8000_0000 * 25000 <= tile.x * 25000 <= 0x8000_0000 * 25000) by (nonlinear_arith)
        requires
            -0x8000_0000 <= tile.x < 0x8000_0000,
    ;
    assert(-0x8000_0000 * 25000 <= tile.y * 25000 <= 0x8000_0000 * 25000) by (nonlinear_arith)
        requires
            -0x8000_0000 <= tile.y < 0x8000_0000,
    ;
    Vec2 {
        x: saturate(tile.x as i64 * (TILE_UNITS as i64)),
        y: saturate(tile.y as i64 * (TILE_UNITS as i64)),
    }
}

/// The world position of the middle of a tile.
pub fn tile_to_world_center(tile: IVec2) -> (v: Vec2)
    ensures
        v == tile_center(tile),
{
    assert(-0x8000_0000 * 25000 <= tile.x * 25000 <= 0x8000_0000 * 25000) by (nonlinear_arith)
        requires
            -0x8000_0000 <= tile.x < 0x8000_0000,
    ;
    assert(-0x8000_0000 * 25000 <= tile.y * 25000 <= 0x8000_0000 * 25000) by (nonlinear_arith)
        requires
            -0x8000_0000 <= tile.y < 0x8000_0000,
    ;
    Vec2 {
        x: saturate(tile.x as i64 * (TILE_UNITS as i64) + HALF_TILE_UNITS as i64),
        y: saturate(tile.y as i64 * (TILE_UNITS as i64) + HALF_TILE_UNITS as i64),
    }
}

/// The tile in which a world position lies.
pub fn world_to_tile(v: Vec2) -> (tile: IVec2)
    ensures
        tile == tile_of(v),
{
    IVec2 { x: floor_div(v.x, TILE_UNITS), y: floor_div(v.y, TILE_UNITS) }
}

/// The tile under the center of `obj`.
pub fn pos_to_tile<A: AsPolygon>(obj: &A) -> (tile: IVec2)
    ensures
        tile == tile_of(obj.polygon().center),
{
    world_to_tile(obj.center())
}

/// The squared distance between two tiles.
pub open spec fn distance_squared_spec(pos1: IVec2, pos2: IVec2) -> int {
    (pos2.x - pos1.x) * (pos2.x - pos1.x) + (pos2.y - pos1.y) * (pos2.y - pos1.y)
}

/// The squared distance between two tiles, which has to fit the result type.
pub fn distance_squared(pos1: IVec2, pos2: IVec2) -> (d: i32)
    requires
        distance_squared_spec(pos1, pos2) <= i32::MAX,
    ensures
        d == distance_squared_spec(pos1, pos2),
{
    let dx: i64 = pos2.x as i64 - pos1.x as i64;
    let dy: i64 = pos2.y as i64 - pos1.y as i64;
    let sq: u128 = crate::math::square_sum(dx, dy);
    sq as i32
}

impl Default for Object {
    /// A bare wall tile at the first place of the map.
    fn default() -> (o: Object)
        ensures
            o.pos == (IVec2 { x: 0, y: 0 }),
            !o.is_floor,
            !o.has_been_seen,
            !o.currently_visible,
            o.items@.len() == 0,
            o.door is None,
            o.trap is None,
            o.effects@.len() == 0,
    {
        Object::wall(IVec2 { x: 0, y: 0 })
    }
}

impl Object {
    /// A bare wall tile at `pos`.
    pub fn wall(pos: IVec2) -> (o: Object)
        ensures
            o.pos == pos,
            !o.is_floor,
            !o.has_been_seen,
            !o.currently_visible,
            o.items@.len() == 0,
            o.door is None,
            o.trap is None,
            o.effects@.len() == 0,
    {
        Object {
            pos,
            is_floor: false,
            has_been_seen: false,
            currently_visible: false,
            items: Vec::new(),
            door: None,
            trap: None,
            effects: Vec::new(),
        }
    }

    /// A bare floor tile at `pos`.
    pub fn floor(pos: IVec2) -> (o: Object)
        ensures
            o.pos == pos,
            o.is_floor,
            !o.has_been_seen,
            !o.currently_visible,
            o.items@.len() == 0,
            o.door is None,
            o.trap is None,
            o.effects@.len() == 0,
    {
        Object {
            pos,
            is_floor: true,
            has_been_seen: false,
            currently_visible: false,
            items: Vec::new(),
            door: None,
            trap: None,
            effects: Vec::new(),
        }
    }

    /// Whether the tile stops movement and sight: any tile that is not floor,
    /// but for an open door.
    pub open spec fn collidable(&self) -> bool {
        !self.is_floor && match self.door {
            Some(door) => !door.is_open,
            None => true,
        }
    }

    pub fn tile_pos(&self) -> (pos: IVec2)
        ensures
            pos == self.pos,
    {
        self.pos
    }

    pub fn is_collidable(&self) -> (r: bool)
        ensures
            r == self.collidable(),
    {
        if self.is_floor {
            return false;
        }
        match &self.door {
            Some(door) => !door.is_open,
            None => true,
        }
    }

    pub fn items(&self) -> (items: &Vec<ItemInfo>)
        ensures
            items == &self.items,
    {
        &self.items
    }

    pub fn door(&self) -> (door: &Option<Door>)
        ensures
            door == &self.door,
    {
        &self.door
    }

    pub fn has_been_seen(&self) -> (r: bool)
        ensures
            r == self.has_been_seen,
    {
        self.has_been_seen
    }

    pub fn currently_visible(&self) -> (r: bool)
        ensures
            r == self.currently_visible,
    {
        self.currently_visible
    }

    pub fn clear_currently_visible(&mut self)
        ensures
            *final(self) == (Object { currently_visible: false, ..*old(self) }),
    {
        self.currently_visible = false;
    }

    pub fn items_mut(&mut self) -> (items: &mut Vec<ItemInfo>)
        ensures
            *items == old(self).items,
            *final(self) == (Object { items: *final(items), ..*old(self) }),
    {
        &mut self.items
    }

    /// Opens the door on this tile, if there is one.
    pub fn open_door(&mut self)
        ensures
            *final(self) == (Object {
                door: match old(self).door {
                    Some(d) => Some(Door { is_open: true, ..d }),
                    None => None,
                },
                ..*old(self)
            }),
    {
        match self.door {
            Some(d) => {
                self.door = Some(Door { pos: d.pos, is_open: true });
            },
            None => {},
        }
    }

    /// Closes the door on this tile, if there is one.
    pub fn close_door(&mut self)
        ensures
            *final(self) == (Object {
                door: match old(self).door {
                    Some(d) => Some(Door { is_open: false, ..d }),
                    None => None,
                },
                ..*old(self)
            }),
    {
        match self.door {
            Some(d) => {
                self.door = Some(Door { pos: d.pos, is_open: false });
            },
            None => {},
        }
    }

    /// The sprite that shows the tile.
    pub fn texture(&self) -> (name: &'static str)
        ensures
            name@ == (if self.is_floor {
                if self.trap is Some {
                    "trap.webp"@
                } else {
                    "light_gray.webp"@
                }
            } else {
                match self.door {
                    Some(d) => if d.is_open {
                        "open_door.webp"@
                    } else {
                        "door.webp"@
                    },
                    None => "black.webp"@,
                }
            }),
    {
        if self.is_floor {
            if self.trap.is_some() {
                "trap.webp"
            } else {
                "light_gray.webp"
            }
        } else {
            match self.door {
                Some(d) => if d.is_open {
                    "open_door.webp"
                } else {
                    "door.webp"
                },
                None => "black.webp",
            }
        }
    }
}

impl AsPolygon for Object {
    open spec fn polygon(&self) -> Polygon {
        tile_polygon(self.pos)
    }

    fn as_polygon(&self) -> (p: Polygon) {
        easy_polygon(
            tile_to_world_center(self.pos),
            Vec2 { x: HALF_TILE_UNITS, y: HALF_TILE_UNITS },
            Angle::zero(),
        )
    }
}

/// The first `n` pairs of tiles of the top and the bottom run of a wall with
/// the given corners, column by column from the left; the right corners are
/// left to the sides.
pub open spec fn wall_run_x(top_left: IVec2, bottom_right: IVec2, n: int) -> Seq<IVec2>
    decreases n,
{
    if n <= 0 {
        Seq::empty()
    } else {
        wall_run_x(top_left, bottom_right, n - 1).push(
            IVec2 { x: (top_left.x + n - 1) as i32, y: top_left.y },
        ).push(IVec2 { x: (top_left.x + n - 1) as i32, y: bottom_right.y })
    }
}

/// The first `n` pairs of tiles of the left and the right side of a wall
/// with the given corners, row by row from the top.
pub open spec fn wall_run_y(top_left: IVec2, bottom_right: IVec2, n: int) -> Seq<IVec2>
    decreases n,
{
    if n <= 0 {
        Seq::empty()
    } else {
        wall_run_y(top_left, bottom_right, n - 1).push(
            IVec2 { x: top_left.x, y: (top_left.y + n - 1) as i32 },
        ).push(IVec2 { x: bottom_right.x, y: (top_left.y + n - 1) as i32 })
    }
}

/// The tiles of a wall with the given corners, in the order in which they
/// are laid: the top and the bottom run first, then the two sides.
pub open spec fn wall_tiles(top_left: IVec2, bottom_right: IVec2) -> Seq<IVec2> {
    wall_run_x(top_left, bottom_right, bottom_right.x - top_left.x) + wall_run_y(
        top_left,
        bottom_right,
        bottom_right.y - top_left.y + 1,
    )
}

/// A rectangular room: the tiles of its wall run from `top_left` to
/// `bottom_right`, both included.
#[derive(Clone, Debug)]
pub struct Room {
    pub top_left: IVec2,
    pub bottom_right: IVec2,
    pub doors: Vec<Door>,
}

impl Room {
    /// Whether `pos` is a tile of the room's wall.
    pub open spec fn on_wall(&self, pos: IVec2) -> bool {
        &&& self.top_left.x <= pos.x <= self.bottom_right.x
        &&& self.top_left.y <= pos.y <= self.bottom_right.y
        &&& (pos.x == self.top_left.x || pos.x == self.bottom_right.x || pos.y == self.top_left.y
            || pos.y == self.bottom_right.y)
    }

    /// Whether `pos` is strictly inside the room's wall.
    pub open spec fn inside(&self, pos: IVec2) -> bool {
        &&& self.top_left.x < pos.x < self.bottom_right.x
        &&& self.top_left.y < pos.y < self.bottom_right.y
    }

    /// Whether `pos` is one of the four corners of the wall.
    pub open spec fn is_corner(&self, pos: IVec2) -> bool {
        &&& (pos.x == self.top_left.x || pos.x == self.bottom_right.x)
        &&& (pos.y == self.top_left.y || pos.y == self.bottom_right.y)
    }

    /// The middle tile of the room.
    pub open spec fn center_spec(&self) -> IVec2 {
        IVec2 {
            x: crate::math::div_trunc(self.top_left.x + self.bottom_right.x, 2) as i32,
            y: crate::math::div_trunc(self.top_left.y + self.bottom_right.y, 2) as i32,
        }
    }

    /// A room is well formed when its corners are in order and on the map
    /// and every door stands on its wall, off the corners.
    pub open spec fn wf(&self) -> bool {
        &&& 0 <= self.top_left.x < self.bottom_right.x <= MAP_WIDTH_TILES
        &&& 0 <= self.top_left.y < self.bottom_right.y <= MAP_HEIGHT_TILES
        &&& forall|k: int|
            0 <= k < self.doors@.len() ==> self.on_wall(#[trigger] self.doors@[k].pos)
                && !self.is_corner(self.doors@[k].pos)
    }

    pub fn extents(&self) -> (r: (IVec2, IVec2))
        ensures
            r == (self.top_left, self.bottom_right),
    {
        (self.top_left, self.bottom_right)
    }

    /// Returns whether or not a position is inside a room.
    pub fn inside_room(&self, pos: IVec2) -> (r: bool)
        ensures
            r == self.inside(pos),
    {
        pos.x > self.top_left.x && pos.y > self.top_left.y && pos.x < self.bottom_right.x && pos.y
            < self.bottom_right.y
    }

    pub fn center(&self) -> (c: IVec2)
        ensures
            c == self.center_spec(),
    {
        let sx: i64 = self.top_left.x as i64 + self.bottom_right.x as i64;
        let sy: i64 = self.top_left.y as i64 + self.bottom_right.y as i64;
        IVec2 {
            x: crate::math::trunc_div(sx, 2) as i32,
            y: crate::math::trunc_div(sy, 2) as i32,
        }
    }

    /// The tiles of the room's wall: the top and bottom runs first, then the
    /// left and right runs. A corner may be listed twice.
    pub fn generate_walls(&self) -> (walls: Vec<IVec2>)
        requires
            self.top_left.x <= self.bottom_right.x,
            self.top_left.y <= self.bottom_right.y,
        ensures
            forall|p: IVec2| walls@.contains(p) <==> self.on_wall(p),
            walls@ == wall_tiles(self.top_left, self.bottom_right),
    {
        let mut walls: Vec<IVec2> = Vec::new();
        let mut x: i32 = self.top_left.x;
        while x < self.bottom_right.x
            invariant
                self.top_left.x <= x <= self.bottom_right.x,
                self.top_left.y <= self.bottom_right.y,
                walls@ == wall_run_x(self.top_left, self.bottom_right, x - self.top_left.x),
                forall|p: IVec2|
                    walls@.contains(p) <==> (self.top_left.x <= p.x < x && (p.y == self.top_left.y
                        || p.y == self.bottom_right.y)),
            decreases self.bottom_right.x - x,
        {
            let ghost before = walls@;
            let top = IVec2 { x, y: self.top_left.y };
            let bottom = IVec2 { x, y: self.bottom_right.y };
            walls.push(top);
            walls.push(bottom);
            proof {
                assert(walls@ =~= before.push(top).push(bottom));
                assert forall|p: IVec2| walls@.contains(p) <==> (before.contains(p) || p == top
                    || p == bottom) by {
                    if before.contains(p) {
                        let k = choose|k: int| 0 <= k < before.len() && before[k] == p;
                        assert(walls@[k] == p);
                    }
                    assert(walls@[before.len() as int] == top);
                    assert(walls@[before.len() as int + 1] == bottom);
                    if walls@.contains(p) {
                        let k = choose|k: int| 0 <= k < walls@.len() && walls@[k] == p;
                        if k < before.len() {
                            assert(before[k] == p);
                        }
                    }
                }
                assert forall|p: IVec2|
                    walls@.contains(p) <==> (self.top_left.x <= p.x < x + 1 && (p.y
                        == self.top_left.y || p.y == self.bottom_right.y)) by {
                    assert(walls@.contains(p) <==> (before.contains(p) || p == top || p == bottom));
                    assert(before.contains(p) <==> (self.top_left.x <= p.x < x && (p.y
                        == self.top_left.y || p.y == self.bottom_right.y)));
                }
            }
            x = x + 1;
        }
        let mut y: i32 = self.top_left.y;
        let mut done: bool = false;
        assert(walls@ =~= walls@ + wall_run_y(self.top_left, self.bottom_right, 0));
        while !done
            invariant
                self.top_left.x <= self.bottom_right.x,
                self.top_left.y <= y <= self.bottom_right.y,
                walls@ == wall_run_x(
                    self.top_left,
                    self.bottom_right,
                    self.bottom_right.x - self.top_left.x,
                ) + wall_run_y(
                    self.top_left,
                    self.bottom_right,
                    y - self.top_left.y + (if done {
                        1int
                    } else {
                        0int
                    }),
                ),
                forall|p: IVec2|
                    walls@.contains(p) <==> ((self.top_left.x <= p.x < self.bottom_right.x && (p.y
                        == self.top_left.y || p.y == self.bottom_right.y)) || ((
                    self.top_left.y <= p.y < y || (done && p.y == y)) && (p.x == self.top_left.x
                        || p.x == self.bottom_right.x))),
                done ==> y == self.bottom_right.y,
            decreases self.bottom_right.y - y + (if done { 0int } else { 1int }),
        {
            let ghost before = walls@;
            let left = IVec2 { x: self.top_left.x, y };
            let right = IVec2 { x: self.bottom_right.x, y };
            walls.push(left);
            walls.push(right);
            proof {
                assert(walls@ =~= before.push(left).push(right));
                assert(walls@ =~= wall_run_x(
                    self.top_left,
                    self.bottom_right,
                    self.bottom_right.x - self.top_left.x,
                ) + wall_run_y(self.top_left, self.bottom_right, y - self.top_left.y + 1));
                assert forall|p: IVec2| walls@.contains(p) <==> (before.contains(p) || p == left
                    || p == right) by {
                    if before.contains(p) {
                        let k = choose|k: int| 0 <= k < before.len() && before[k] == p;
                        assert(walls@[k] == p);
                    }
                    assert(walls@[before.len() as int] == left);
                    assert(walls@[before.len() as int + 1] == right);
                    if walls@.contains(p) {
                        let k = choose|k: int| 0 <= k < walls@.len() && walls@[k] == p;
                        if k < before.len() {
                            assert(before[k] == p);
                        }
                    }
                }
                assert forall|p: IVec2|
                    walls@.contains(p) <==> ((self.top_left.x <= p.x < self.bottom_right.x && (p.y
                        == self.top_left.y || p.y == self.bottom_right.y)) || ((
                    self.top_left.y <= p.y <= y) && (p.x == self.top_left.x || p.x
                        == self.bottom_right.x))) by {
                    assert(walls@.contains(p) <==> (before.contains(p) || p == left || p == right));
                    assert(before.contains(p) <==> ((self.top_left.x <= p.x < self.bottom_right.x
                        && (p.y == self.top_left.y || p.y == self.bottom_right.y)) || ((
                    self.top_left.y <= p.y < y) && (p.x == self.top_left.x || p.x
                        == self.bottom_right.x))));
                }
            }
            if y == self.bottom_right.y {
                done = true;
            } else {
                y = y + 1;
            }
        }
        walls
    }
}

/// Whether `pos` is a tile of the map.
pub open spec fn in_bounds(pos: IVec2) -> bool {
    0 <= pos.x < MAP_WIDTH_TILES && 0 <= pos.y < MAP_HEIGHT_TILES
}

/// The place of the tile `pos` in the row-major tile array.
pub open spec fn index_of(pos: IVec2) -> int {
    pos.x + pos.y * MAP_WIDTH_TILES
}

/// The tile that is held at place `i` of the tile array.
pub open spec fn tile_at(i: int) -> IVec2 {
    IVec2 { x: (i % MAP_WIDTH_TILES as int) as i32, y: (i / MAP_WIDTH_TILES as int) as i32 }
}

/// Going from a tile to its place in the array and back gives the tile.
pub proof fn lemma_index_round_trip(pos: IVec2)
    requires
        in_bounds(pos),
    ensures
        0 <= index_of(pos) < MAP_WIDTH_TILES * MAP_HEIGHT_TILES,
        tile_at(index_of(pos)) == pos,
{
}

/// Going from a place in the array to its tile and back gives the place.
pub proof fn lemma_tile_round_trip(i: int)
    requires
        0 <= i < MAP_WIDTH_TILES * MAP_HEIGHT_TILES,
    ensures
        in_bounds(tile_at(i)),
        index_of(tile_at(i)) == i,
{
}

/// The place of `pos` in the tile array, if `pos` is on the map.
pub fn tile_index(pos: IVec2) -> (r: Option<usize>)
    ensures
        in_bounds(pos) ==> r == Some(index_of(pos) as usize),
        !in_bounds(pos) ==> r is None,
{
    if pos.x >= 0 && pos.x < MAP_WIDTH_TILES as i32 && pos.y >= 0 && pos.y < MAP_HEIGHT_TILES as i32 {
        Some(pos.x as usize + pos.y as usize * MAP_WIDTH_TILES)
    } else {
        None
    }
}

/// The tiles of one level, row by row.
#[derive(Clone, Debug)]
pub struct Floor {
    pub objects: Vec<Object>,
}

impl Floor {
    /// The array is dense: one tile for each position of the map, each at
    /// its row-major place.
    pub open spec fn wf(&self) -> bool {
        &&& self.objects@.len() == MAP_WIDTH_TILES * MAP_HEIGHT_TILES
        &&& forall|i: int|
            0 <= i < self.objects@.len() ==> (#[trigger] self.objects@[i]).pos == tile_at(i)
    }

    /// The tile at `pos`, which has to be on the map.
    pub open spec fn at(&self, pos: IVec2) -> Object {
        self.objects@[index_of(pos)]
    }

    /// Whether the tile at place `i` stands in the way of the shape `p`
    /// moved by `(dx, dy)`.
    pub open spec fn blocks(&self, i: int, p: Polygon, dx: int, dy: int) -> bool {
        self.objects@[i].collidable() && p.collides(self.objects@[i].polygon(), dx, dy)
    }

    /// Whether any tile stands in the way of the shape `p` moved by
    /// `(dx, dy)`.
    pub open spec fn blocked(&self, p: Polygon, dx: int, dy: int) -> bool {
        exists|i: int| 0 <= i < self.objects@.len() && #[trigger] self.blocks(i, p, dx, dy)
    }

    /// A floor on which every tile is wall.
    pub fn solid() -> (floor: Floor)
        ensures
            floor.wf(),
            forall|i: int|
                0 <= i < floor.objects@.len() ==> {
                    let o = #[trigger] floor.objects@[i];
                    &&& !o.is_floor
                    &&& o.door is None
                    &&& o.trap is None
                    &&& o.items@.len() == 0
                    &&& o.effects@.len() == 0
                    &&& !o.has_been_seen
                    &&& !o.currently_visible
                },
    {
        let mut objects: Vec<Object> = Vec::new();
        let mut i: usize = 0;
        while i < MAP_WIDTH_TILES * MAP_HEIGHT_TILES
            invariant
                i <= MAP_WIDTH_TILES * MAP_HEIGHT_TILES,
                objects@.len() == i,
                forall|k: int|
                    0 <= k < i ==> {
                        let o = #[trigger] objects@[k];
                        &&& o.pos == tile_at(k)
                        &&& !o.is_floor
                        &&& o.door is None
                        &&& o.trap is None
                        &&& o.items@.len() == 0
                        &&& o.effects@.len() == 0
                        &&& !o.has_been_seen
                        &&& !o.currently_visible
                    },
            decreases MAP_WIDTH_TILES * MAP_HEIGHT_TILES - i,
        {
            let pos = IVec2 { x: (i % MAP_WIDTH_TILES) as i32, y: (i / MAP_WIDTH_TILES) as i32 };
            objects.push(Object::wall(pos));
            i = i + 1;
        }
        Floor { objects }
    }

    /// Puts `object` in the place of the tile at its position. A position
    /// off the map leaves the floor as it is and returns `false`.
    pub fn set_object(&mut self, object: Object) -> (placed: bool)
        requires
            old(self).wf(),
        ensures
            final(self).wf(),
            placed == in_bounds(object.pos),
            placed ==> final(self).objects@ == old(self).objects@.update(
                index_of(object.pos),
                object,
            ),
            !placed ==> final(self).objects@ == old(self).objects@,
    {
        match tile_index(object.pos) {
            Some(i) => {
                proof {
                    lemma_index_round_trip(object.pos);
                }
                self.objects[i] = object;
                true
            },
            None => false,
        }
    }

    pub fn objects(&self) -> (objects: &Vec<Object>)
        ensures
            objects == &self.objects,
    {
        &self.objects
    }

    /// The tiles, to be changed in place. Whoever changes them keeps the
    /// array dense, if the floor is to stay well formed.
    pub fn objects_mut(&mut self) -> (objects: &mut Vec<Object>)
        ensures
            *objects == old(self).objects,
            final(self).objects == *final(objects),
    {
        &mut self.objects
    }

    pub fn get_object_from_pos(&self, pos: IVec2) -> (r: Option<&Object>)
        requires
            self.wf(),
        ensures
            in_bounds(pos) ==> r == Some(&self.at(pos)),
            !in_bounds(pos) ==> r is None,
    {
        match tile_index(pos) {
            Some(i) => Some(&self.objects[i]),
            None => None,
        }
    }

    pub fn get_object_from_pos_mut(&mut self, pos: IVec2) -> (r: Option<&mut Object>)
        requires
            old(self).objects@.len() == MAP_WIDTH_TILES * MAP_HEIGHT_TILES,
        ensures
            in_bounds(pos) ==> r is Some && *r->0 == old(self).at(pos) && final(self).objects@
                == old(self).objects@.update(index_of(pos), *final(r->0)),
            !in_bounds(pos) ==> r is None && *final(self) == *old(self),
    {
        match tile_index(pos) {
            Some(i) => Some(&mut self.objects[i]),
            None => None,
        }
    }

    /// Whether `after` is this floor with `item` laid, as the last item,
    /// on the tile that the item names as its position.
    pub open spec fn item_added(&self, after: Floor, item: ItemInfo) -> bool {
        &&& after.objects@ == self.objects@.update(
            index_of(item.tile_pos->0),
            Object { items: after.at(item.tile_pos->0).items, ..self.at(item.tile_pos->0) },
        )
        &&& after.at(item.tile_pos->0).items@ == self.at(item.tile_pos->0).items@.push(item)
    }

    /// Lays `item` on the tile that it names as its position.
    pub fn add_item_to_object(&mut self, item: ItemInfo)
        requires
            old(self).wf(),
            item.tile_pos is Some,
            in_bounds(item.tile_pos->0),
        ensures
            final(self).wf(),
            old(self).item_added(*final(self), item),
    {
        let pos = item.tile_pos.unwrap();
        let i = tile_index(pos).unwrap();
        self.objects[i].items.push(item);
        assert(final(self).objects@ =~= old(self).objects@.update(
            index_of(item.tile_pos->0),
            Object {
                items: final(self).at(item.tile_pos->0).items,
                ..old(self).at(item.tile_pos->0)
            },
        ));
    }

    /// The place of the first tile, in array order, that stands in the way
    /// of `poly` moved by `distance`.
    pub fn collision_index(&self, poly: &Polygon, distance: Vec2) -> (r: Option<usize>)
        ensures
            match r {
                Some(i) => i < self.objects@.len() && self.blocks(
                    i as int,
                    *poly,
                    distance.x as int,
                    distance.y as int,
                ) && forall|j: int|
                    0 <= j < i ==> !#[trigger] self.blocks(
                        j,
                        *poly,
                        distance.x as int,
                        distance.y as int,
                    ),
                None => !self.blocked(*poly, distance.x as int, distance.y as int),
            },
    {
        let mut i: usize = 0;
        while i < self.objects.len()
            invariant
                i <= self.objects@.len(),
                forall|j: int|
                    0 <= j < i ==> !#[trigger] self.blocks(
                        j,
                        *poly,
                        distance.x as int,
                        distance.y as int,
                    ),
            decreases self.objects@.len() - i,
        {
            if self.objects[i].is_collidable() {
                let tile = self.objects[i].as_polygon();
                if polygons_collide(poly, &tile, distance) {
                    return Some(i);
                }
            }
            i = i + 1;
        }
        None
    }

    /// Same as `collision`, but returns the tile collided with: the first
    /// one in array order.
    pub fn collision_obj<A: AsPolygon>(&self, aabb: &A, distance: Vec2) -> (r: Option<&Object>)
        ensures
            r is Some <==> self.blocked(aabb.polygon(), distance.x as int, distance.y as int),
            r matches Some(o) ==> exists|i: int|
                0 <= i < self.objects@.len() && *o == self.objects@[i] && #[trigger] self.blocks(
                    i,
                    aabb.polygon(),
                    distance.x as int,
                    distance.y as int,
                ) && forall|j: int|
                    0 <= j < i ==> !#[trigger] self.blocks(
                        j,
                        aabb.polygon(),
                        distance.x as int,
                        distance.y as int,
                    ),
    {
        let poly = aabb.as_polygon();
        match self.collision_index(&poly, distance) {
            Some(i) => Some(&self.objects[i]),
            None => None,
        }
    }

    /// Whether `aabb`, moved by `distance`, runs into a wall or a closed
    /// door.
    pub fn collision<A: AsPolygon>(&self, aabb: &A, distance: Vec2) -> (r: bool)
        ensures
            r == self.blocked(aabb.polygon(), distance.x as int, distance.y as int),
    {
        let poly = aabb.as_polygon();
        self.collision_index(&poly, distance).is_some()
    }

    /// The collision test along each axis on its own.
    pub fn collision_dir<A: AsPolygon>(&self, aabb: &A, distance: Vec2) -> (r: BVec2)
        ensures
            r.x == self.blocked(aabb.polygon(), distance.x as int, 0),
            r.y == self.blocked(aabb.polygon(), 0, distance.y as int),
    {
        let poly = aabb.as_polygon();
        BVec2 {
            x: self.collision_index(&poly, Vec2 { x: distance.x, y: 0 }).is_some(),
            y: self.collision_index(&poly, Vec2 { x: 0, y: distance.y }).is_some(),
        }
    }

    /// The places of all tiles that carry a door, in array order.
    pub fn doors(&self) -> (doors: Vec<usize>)
        ensures
            forall|k: int|
                0 <= k < doors@.len() ==> (#[trigger] doors@[k]) < self.objects@.len()
                    && self.objects@[doors@[k] as int].door is Some,
            forall|i: int|
                0 <= i < self.objects@.len() && (#[trigger] self.objects@[i]).door is Some
                    ==> doors@.contains(i as usize),
            forall|a: int, b: int| 0 <= a < b < doors@.len() ==> doors@[a] < doors@[b],
    {
        let mut doors: Vec<usize> = Vec::new();
        let mut i: usize = 0;
        while i < self.objects.len()
            invariant
                i <= self.objects@.len(),
                forall|k: int|
                    0 <= k < doors@.len() ==> (#[trigger] doors@[k]) < i
                        && self.objects@[doors@[k] as int].door is Some,
                forall|j: int|
                    0 <= j < i && (#[trigger] self.objects@[j]).door is Some ==> doors@.contains(
                        j as usize,
                    ),
                forall|a: int, b: int| 0 <= a < b < doors@.len() ==> doors@[a] < doors@[b],
            decreases self.objects@.len() - i,
        {
            if self.objects[i].door.is_some() {
                let ghost before = doors@;
                doors.push(i);
                proof {
                    assert forall|j: int|
                        0 <= j < i + 1 && (#[trigger] self.objects@[j]).door is Some implies doors@.contains(
                        j as usize,
                    ) by {
                        if j < i {
                            let k = choose|k: int| 0 <= k < before.len() && before[k] == j as usize;
                            assert(doors@[k] == j as usize);
                        } else {
                            assert(doors@[before.len() as int] == i);
                        }
                    }
                }
            }
            i = i + 1;
        }
        doors
    }

    /// The places of all tiles with a trap that has not gone off, in array
    /// order.
    pub fn untriggered_traps(&self) -> (traps: Vec<usize>)
        ensures
            forall|k: int|
                0 <= k < traps@.len() ==> (#[trigger] traps@[k]) < self.objects@.len()
                    && self.objects@[traps@[k] as int].trap is Some
                    && !self.objects@[traps@[k] as int].trap->0.triggered,
            forall|i: int|
                0 <= i < self.objects@.len() && (#[trigger] self.objects@[i]).trap is Some
                    && !self.objects@[i].trap->0.triggered ==> traps@.contains(i as usize),
            forall|a: int, b: int| 0 <= a < b < traps@.len() ==> traps@[a] < traps@[b],
    {
        let mut traps: Vec<usize> = Vec::new();
        let mut i: usize = 0;
        while i < self.objects.len()
            invariant
                i <= self.objects@.len(),
                forall|k: int|
                    0 <= k < traps@.len() ==> (#[trigger] traps@[k]) < i
                        && self.objects@[traps@[k] as int].trap is Some
                        && !self.objects@[traps@[k] as int].trap->0.triggered,
                forall|j: int|
                    0 <= j < i && (#[trigger] self.objects@[j]).trap is Some
                        && !self.objects@[j].trap->0.triggered ==> traps@.contains(j as usize),
                forall|a: int, b: int| 0 <= a < b < traps@.len() ==> traps@[a] < traps@[b],
            decreases self.objects@.len() - i,
        {
            let live = match self.objects[i].trap {
                Some(trap) => !trap.triggered,
                None => false,
            };
            if live {
                let ghost before = traps@;
                traps.push(i);
                proof {
                    assert forall|j: int|
                        0 <= j < i + 1 && (#[trigger] self.objects@[j]).trap is Some
                            && !self.objects@[j].trap->0.triggered implies traps@.contains(
                        j as usize,
                    ) by {
                        if j < i {
                            let k = choose|k: int| 0 <= k < before.len() && before[k] == j as usize;
                            assert(traps@[k] == j as usize);
                        } else {
                            assert(traps@[before.len() as int] == i);
                        }
                    }
                }
            }
            i = i + 1;
        }
        traps
    }
}

/// What is left of the effects on a tile after one frame: an effect with a
/// time limit loses one frame and is dropped when none is left.
pub open spec fn tick_effects(effects: Seq<Effect>) -> Seq<Effect>
    decreases effects.len(),
{
    if effects.len() == 0 {
        Seq::empty()
    } else {
        let rest = tick_effects(effects.drop_last());
        let e = effects.last();
        match e.time_til_dissipate {
            None => rest.push(e),
            Some(t) => if t <= 1 {
                rest
            } else {
                rest.push(Effect { time_til_dissipate: Some((t - 1) as u16), ..e })
            },
        }
    }
}

/// Whether the place `i` occurs in `places`.
pub open spec fn listed(places: Seq<usize>, i: int) -> bool {
    exists|k: int| 0 <= k < places.len() && places[k] == i
}

/// Whether `places` lists the place `i`.
pub fn is_listed(places: &Vec<usize>, i: usize) -> (r: bool)
    ensures
        r == listed(places@, i as int),
{
    let mut k: usize = 0;
    while k < places.len()
        invariant
            k <= places@.len(),
            forall|j: int| 0 <= j < k ==> places@[j] != i,
        decreases places@.len() - k,
    {
        if places[k] == i {
            return true;
        }
        k = k + 1;
    }
    false
}

/// The tile as it is once somebody has looked at it.
pub open spec fn seen(o: Object) -> Object {
    Object { has_been_seen: true, currently_visible: true, ..o }
}

impl Floor {
    /// The places of the tiles that are seen along `ray`, in order: tiles
    /// off the map are passed over, and the first tile that stops sight is
    /// the last one seen.
    pub open spec fn ray_sees(&self, ray: Seq<IVec2>) -> Seq<usize>
        decreases ray.len(),
    {
        if ray.len() == 0 {
            Seq::empty()
        } else if !in_bounds(ray[0]) {
            self.ray_sees(ray.drop_first())
        } else if self.at(ray[0]).collidable() {
            seq![index_of(ray[0]) as usize]
        } else {
            seq![index_of(ray[0]) as usize] + self.ray_sees(ray.drop_first())
        }
    }

    /// What is seen along the rays from `center` to each of `edges`, one ray
    /// after the other.
    pub open spec fn rays_see(&self, center: IVec2, edges: Seq<IVec2>) -> Seq<usize>
        decreases edges.len(),
    {
        if edges.len() == 0 {
            Seq::empty()
        } else {
            self.ray_sees(line(center, edges[0])) + self.rays_see(center, edges.drop_first())
        }
    }

    /// The places of the tiles that are seen from `center` within `radius`
    /// tiles: one ray is cast to each tile of the circle of that radius. A
    /// tile that several rays cross is listed once for each.
    pub open spec fn visible_from(&self, center: IVec2, radius: int) -> Seq<usize> {
        self.rays_see(center, circumference(center, radius))
    }

    /// Every place that a ray sees is a place of the tile array.
    pub proof fn lemma_ray_sees_in_range(&self, ray: Seq<IVec2>)
        ensures
            forall|k: int|
                0 <= k < self.ray_sees(ray).len() ==> (#[trigger] self.ray_sees(ray)[k])
                    < MAP_WIDTH_TILES * MAP_HEIGHT_TILES,
        decreases ray.len(),
    {
        if ray.len() != 0 {
            self.lemma_ray_sees_in_range(ray.drop_first());
            let rest = self.ray_sees(ray.drop_first());
            if in_bounds(ray[0]) {
                lemma_index_round_trip(ray[0]);
                let head = seq![index_of(ray[0]) as usize];
                assert forall|k: int| 0 <= k < self.ray_sees(ray).len() implies (
                #[trigger] self.ray_sees(ray)[k]) < MAP_WIDTH_TILES * MAP_HEIGHT_TILES by {
                    if self.at(ray[0]).collidable() {
                        assert(self.ray_sees(ray) == head);
                    } else {
                        assert(self.ray_sees(ray) == head + rest);
                        if k > 0 {
                            assert((head + rest)[k] == rest[k - 1]);
                        }
                    }
                }
            }
        }
    }

    /// Every place that is seen is a place of the tile array.
    pub proof fn lemma_rays_see_in_range(&self, center: IVec2, edges: Seq<IVec2>)
        ensures
            forall|k: int|
                0 <= k < self.rays_see(center, edges).len() ==> (#[trigger] self.rays_see(
                    center,
                    edges,
                )[k]) < MAP_WIDTH_TILES * MAP_HEIGHT_TILES,
        decreases edges.len(),
    {
        if edges.len() != 0 {
            self.lemma_ray_sees_in_range(line(center, edges[0]));
            self.lemma_rays_see_in_range(center, edges.drop_first());
            let first = self.ray_sees(line(center, edges[0]));
            let rest = self.rays_see(center, edges.drop_first());
            assert(self.rays_see(center, edges) == first + rest);
            assert forall|k: int| 0 <= k < self.rays_see(center, edges).len() implies (
            #[trigger] self.rays_see(center, edges)[k]) < MAP_WIDTH_TILES * MAP_HEIGHT_TILES by {
                if k < first.len() {
                    assert((first + rest)[k] == first[k]);
                } else {
                    assert((first + rest)[k] == rest[k - first.len()]);
                }
            }
        }
    }

    fn look_along(&self, ray: &Vec<IVec2>, seen: &mut Vec<usize>)
        requires
            self.wf(),
        ensures
            final(seen)@ == old(seen)@ + self.ray_sees(ray@),
    {
        let mut k: usize = 0;
        let ghost total = old(seen)@ + self.ray_sees(ray@);
        assert(ray@.subrange(0, ray@.len() as int) =~= ray@);
        while k < ray.len()
            invariant
                self.wf(),
                k <= ray@.len(),
                total == old(seen)@ + self.ray_sees(ray@),
                seen@ + self.ray_sees(ray@.subrange(k as int, ray@.len() as int)) == total,
            decreases ray@.len() - k,
        {
            let ghost rest = ray@.subrange(k as int, ray@.len() as int);
            assert(rest.drop_first() =~= ray@.subrange(k + 1, ray@.len() as int));
            assert(rest[0] == ray@[k as int]);
            let ghost before = seen@;
            match tile_index(ray[k]) {
                Some(i) => {
                    proof {
                        lemma_index_round_trip(ray@[k as int]);
                    }
                    seen.push(i);
                    assert(rest.len() > 0 && in_bounds(rest[0]) && i == index_of(rest[0]));
                    assert(self.at(rest[0]) == self.objects@[i as int]);
                    if self.objects[i].is_collidable() {
                        assert(self.ray_sees(rest) =~= seq![i]);
                        assert(seen@ =~= before + self.ray_sees(rest));
                        return ;
                    }
                    assert(self.ray_sees(rest) =~= seq![i] + self.ray_sees(rest.drop_first()));
                    assert(seen@ + self.ray_sees(rest.drop_first()) =~= before + self.ray_sees(
                        rest,
                    ));
                },
                None => {
                    assert(rest.len() > 0 && !in_bounds(rest[0]));
                    assert(self.ray_sees(rest) == self.ray_sees(rest.drop_first()));
                },
            }
            k = k + 1;
        }
        assert(ray@.subrange(k as int, ray@.len() as int) =~= Seq::<IVec2>::empty());
        assert(seen@ =~= seen@ + Seq::<usize>::empty());
    }

    /// The places of the tiles seen from `center` within `radius` tiles.
    pub fn visible_tiles(&self, center: IVec2, radius: i32) -> (visible: Vec<usize>)
        requires
            self.wf(),
        ensures
            visible@ == self.visible_from(center, radius as int),
            forall|k: int| 0 <= k < visible@.len() ==> (#[trigger] visible@[k]) < self.objects@.len(),
    {
        let edges = points_on_circumference(center, radius);
        let mut visible: Vec<usize> = Vec::new();
        let mut e: usize = 0;
        let ghost total = self.visible_from(center, radius as int);
        assert(edges@.subrange(0, edges@.len() as int) =~= edges@);
        while e < edges.len()
            invariant
                self.wf(),
                e <= edges@.len(),
                visible@ + self.rays_see(center, edges@.subrange(e as int, edges@.len() as int))
                    == total,
            decreases edges@.len() - e,
        {
            let ghost rest = edges@.subrange(e as int, edges@.len() as int);
            assert(rest.drop_first() =~= edges@.subrange(e + 1, edges@.len() as int));
            assert(rest[0] == edges@[e as int]);
            let ghost before = visible@;
            let ray = points_on_line(center, edges[e]);
            self.look_along(&ray, &mut visible);
            assert(visible@ + self.rays_see(center, rest.drop_first()) =~= before + self.rays_see(
                center,
                rest,
            ));
            e = e + 1;
        }
        assert(edges@.subrange(e as int, edges@.len() as int) =~= Seq::<IVec2>::empty());
        assert(visible@ =~= visible@ + Seq::<usize>::empty());
        proof {
            self.lemma_rays_see_in_range(center, circumference(center, radius as int));
        }
        visible
    }

    /// The places of the tiles that `aabb` sees from the tile under its
    /// center, within `size` tiles or `DEFAULT_SIGHT` where none is given.
    pub fn visible_objects<A: AsPolygon>(&self, aabb: &A, size: Option<i32>) -> (visible: Vec<usize>)
        requires
            self.wf(),
        ensures
            visible@ == self.visible_from(
                tile_of(aabb.polygon().center),
                match size {
                    Some(s) => s as int,
                    None => DEFAULT_SIGHT as int,
                },
            ),
            forall|k: int| 0 <= k < visible@.len() ==> (#[trigger] visible@[k]) < self.objects@.len(),
    {
        let center_tile = pos_to_tile(aabb);
        let radius = match size {
            Some(s) => s,
            None => DEFAULT_SIGHT,
        };
        self.visible_tiles(center_tile, radius)
    }

    /// Marks the tiles at `places` as seen and currently visible.
    pub fn mark_seen(&mut self, places: &Vec<usize>)
        requires
            forall|k: int| 0 <= k < places@.len() ==> (#[trigger] places@[k]) < old(self).objects@.len(),
        ensures
            final(self).objects@.len() == old(self).objects@.len(),
            forall|i: int|
                0 <= i < old(self).objects@.len() ==> #[trigger] final(self).objects@[i] == (
                if listed(places@, i) {
                    seen(old(self).objects@[i])
                } else {
                    old(self).objects@[i]
                }),
            old(self).wf() ==> final(self).wf(),
    {
        let mut k: usize = 0;
        while k < places.len()
            invariant
                k <= places@.len(),
                self.objects@.len() == old(self).objects@.len(),
                forall|j: int| 0 <= j < places@.len() ==> (#[trigger] places@[j]) < self.objects@.len(),
                forall|i: int|
                    0 <= i < old(self).objects@.len() ==> #[trigger] self.objects@[i] == (
                    if listed(places@.take(k as int), i) {
                        seen(old(self).objects@[i])
                    } else {
                        old(self).objects@[i]
                    }),
            decreases places@.len() - k,
        {
            let i = places[k];
            let ghost prev = self.objects@;
            self.objects[i].has_been_seen = true;
            self.objects[i].currently_visible = true;
            proof {
                let done = places@.take(k as int);
                let next = places@.take(k + 1);
                assert forall|j: int| 0 <= j < old(self).objects@.len() implies #[trigger] self.objects@[j]
                    == (if listed(next, j) {
                    seen(old(self).objects@[j])
                } else {
                    old(self).objects@[j]
                }) by {
                    if listed(done, j) {
                        let w = choose|w: int| 0 <= w < done.len() && done[w] == j;
                        assert(next[w] == j);
                    }
                    if listed(next, j) && j != i {
                        let w = choose|w: int| 0 <= w < next.len() && next[w] == j;
                        assert(done[w] == j);
                    }
                    assert(next[k as int] == i);
                    if j == i {
                        assert(listed(next, j));
                        assert(self.objects@[j] == seen(prev[j]));
                    } else {
                        assert(self.objects@[j] == prev[j]);
                    }
                }
            }
            k = k + 1;
        }
        assert(places@.take(k as int) =~= places@);
    }

    /// Looks around from `aabb` as `visible_objects` does, and marks every
    /// tile that is seen as seen and currently visible.
    pub fn visible_objects_mut<A: AsPolygon>(&mut self, aabb: &A, size: Option<i32>) -> (visible:
        Vec<usize>)
        requires
            old(self).wf(),
        ensures
            final(self).wf(),
            visible@ == old(self).visible_from(
                tile_of(aabb.polygon().center),
                match size {
                    Some(s) => s as int,
                    None => DEFAULT_SIGHT as int,
                },
            ),
            forall|i: int|
                0 <= i < old(self).objects@.len() ==> #[trigger] final(self).objects@[i] == (
                if listed(visible@, i) {
                    seen(old(self).objects@[i])
                } else {
                    old(self).objects@[i]
                }),
    {
        let visible = self.visible_objects(aabb, size);
        self.mark_seen(&visible);
        visible
    }

    /// Forgets which tiles are in sight, before the next look around.
    pub fn clear_currently_visible(&mut self)
        ensures
            final(self).objects@.len() == old(self).objects@.len(),
            forall|i: int|
                0 <= i < old(self).objects@.len() ==> #[trigger] final(self).objects@[i] == (Object {
                    currently_visible: false,
                    ..old(self).objects@[i]
                }),
            old(self).wf() ==> final(self).wf(),
    {
        let mut i: usize = 0;
        while i < self.objects.len()
            invariant
                i <= self.objects@.len(),
                self.objects@.len() == old(self).objects@.len(),
                forall|j: int|
                    0 <= j < i ==> #[trigger] self.objects@[j] == (Object {
                        currently_visible: false,
                        ..old(self).objects@[j]
                    }),
                forall|j: int|
                    i <= j < self.objects@.len() ==> #[trigger] self.objects@[j] == old(self).objects@[j],
            decreases self.objects@.len() - i,
        {
            self.objects[i].currently_visible = false;
            i = i + 1;
        }
    }
}

/// Lets one frame pass for a list of effects.
pub fn tick_effect_list(effects: &Vec<Effect>) -> (left: Vec<Effect>)
    ensures
        left@ == tick_effects(effects@),
{
    let mut left: Vec<Effect> = Vec::new();
    let mut i: usize = 0;
    while i < effects.len()
        invariant
            i <= effects@.len(),
            left@ == tick_effects(effects@.take(i as int)),
        decreases effects@.len() - i,
    {
        assert(effects@.take(i + 1).drop_last() =~= effects@.take(i as int));
        let e = effects[i];
        match e.time_til_dissipate {
            None => {
                left.push(e);
            },
            Some(t) => {
                if t > 1 {
                    left.push(Effect { time_til_dissipate: Some(t - 1), effect_type: e.effect_type });
                }
            },
        }
        i = i + 1;
    }
    assert(effects@.take(i as int) =~= effects@);
    left
}

/// Lets one frame pass for the effects on every tile.
pub fn update_effects(floor: &mut Floor)
    ensures
        final(floor).objects@.len() == old(floor).objects@.len(),
        forall|i: int|
            0 <= i < old(floor).objects@.len() ==> #[trigger] final(floor).objects@[i] == (Object {
                effects: final(floor).objects@[i].effects,
                ..old(floor).objects@[i]
            }) && final(floor).objects@[i].effects@ == tick_effects(
                old(floor).objects@[i].effects@,
            ),
        old(floor).wf() ==> final(floor).wf(),
{
    let mut i: usize = 0;
    while i < floor.objects.len()
        invariant
            i <= floor.objects@.len(),
            floor.objects@.len() == old(floor).objects@.len(),
            forall|j: int|
                0 <= j < i ==> #[trigger] floor.objects@[j] == (Object {
                    effects: floor.objects@[j].effects,
                    ..old(floor).objects@[j]
                }) && floor.objects@[j].effects@ == tick_effects(old(floor).objects@[j].effects@),
            forall|j: int|
                i <= j < floor.objects@.len() ==> #[trigger] floor.objects@[j] == old(floor).objects@[j],
        decreases floor.objects@.len() - i,
    {
        let left = tick_effect_list(&floor.objects[i].effects);
        floor.objects[i].effects = left;
        i = i + 1;
    }
}

/// The view of an optional list of places.
pub open spec fn places_view(places: Option<Vec<usize>>) -> Option<Seq<usize>> {
    match places {
        Some(v) => Some(v@),
        None => None,
    }
}

/// The four tiles next to `pos`: left, right, up, down.
pub open spec fn neighbors_of(pos: IVec2) -> Seq<IVec2> {
    seq![pos.moved(-1, 0), pos.moved(1, 0), pos.moved(0, -1), pos.moved(0, 1)]
}

impl Floor {
    /// Whether a path may be planned over the tile `pos`: it is on the map,
    /// it is among the `visible` places where such a list is given, and it
    /// does not stop movement, where a door does not count as stopping it
    /// if `ignore_door_collision` holds.
    pub open spec fn passable(
        &self,
        pos: IVec2,
        visible: Option<Seq<usize>>,
        ignore_door_collision: bool,
    ) -> bool {
        &&& in_bounds(pos)
        &&& visible matches Some(v) ==> listed(v, index_of(pos))
        &&& !self.at(pos).collidable() || (ignore_door_collision && self.at(pos).door is Some)
    }

    /// `pos` with the cost of stepping on it, if a path may go there.
    pub open spec fn kept(
        &self,
        pos: IVec2,
        visible: Option<Seq<usize>>,
        ignore_door_collision: bool,
    ) -> Seq<(IVec2, i32)> {
        if self.passable(pos, visible, ignore_door_collision) {
            seq![(pos, 1i32)]
        } else {
            Seq::empty()
        }
    }

    /// The neighbors of `pos` over which a path may go, each with cost 1.
    pub open spec fn viable_neighbors(
        &self,
        pos: IVec2,
        visible: Option<Seq<usize>>,
        ignore_door_collision: bool,
    ) -> Seq<(IVec2, i32)> {
        self.kept(pos.moved(-1, 0), visible, ignore_door_collision) + self.kept(
            pos.moved(1, 0),
            visible,
            ignore_door_collision,
        ) + self.kept(pos.moved(0, -1), visible, ignore_door_collision) + self.kept(
            pos.moved(0, 1),
            visible,
            ignore_door_collision,
        )
    }

    /// Which tiles a path may go over, for each place of the tile array.
    pub open spec fn passable_grid(
        &self,
        visible: Option<Seq<usize>>,
        ignore_door_collision: bool,
    ) -> Seq<bool> {
        Seq::new(
            (MAP_WIDTH_TILES * MAP_HEIGHT_TILES) as nat,
            |i: int| self.passable(tile_at(i), visible, ignore_door_collision),
        )
    }

    /// Whether `b` can be the tile after `a` on a path.
    pub open spec fn is_step(
        &self,
        a: IVec2,
        b: IVec2,
        visible: Option<Seq<usize>>,
        ignore_door_collision: bool,
    ) -> bool {
        neighbors_of(a).contains(b) && self.passable(b, visible, ignore_door_collision)
    }

    /// Whether `route` leads from `start` to `goal`: it begins with `start`,
    /// ends with `goal`, and every tile after the first is a passable
    /// neighbor of the one before it.
    pub open spec fn is_route(
        &self,
        start: IVec2,
        goal: IVec2,
        visible: Option<Seq<usize>>,
        ignore_door_collision: bool,
        route: Seq<IVec2>,
    ) -> bool {
        &&& route.len() >= 1
        &&& route[0] == start
        &&& route[route.len() - 1] == goal
        &&& forall|k: int|
            0 <= k < route.len() - 1 ==> self.is_step(
                #[trigger] route[k],
                route[k + 1],
                visible,
                ignore_door_collision,
            )
    }

    /// Whether `goal` can be reached from `start` at all.
    pub open spec fn reachable(
        &self,
        start: IVec2,
        goal: IVec2,
        visible: Option<Seq<usize>>,
        ignore_door_collision: bool,
    ) -> bool {
        exists|route: Seq<IVec2>| self.is_route(start, goal, visible, ignore_door_collision, route)
    }

    /// A goal that is not passable can be reached only by standing on it.
    pub proof fn lemma_blocked_goal_unreachable(
        &self,
        start: IVec2,
        goal: IVec2,
        visible: Option<Seq<usize>>,
        ignore_door_collision: bool,
    )
        requires
            start != goal,
            !self.passable(goal, visible, ignore_door_collision),
        ensures
            !self.reachable(start, goal, visible, ignore_door_collision),
    {
        assert forall|route: Seq<IVec2>| !self.is_route(
            start,
            goal,
            visible,
            ignore_door_collision,
            route,
        ) by {
            if self.is_route(start, goal, visible, ignore_door_collision, route) {
                assert(route.len() >= 2);
                assert(self.is_step(
                    route[route.len() - 2],
                    route[route.len() - 2 + 1],
                    visible,
                    ignore_door_collision,
                ));
            }
        }
    }
}

/// The tiles next to `pos` over which a path may be planned, each with the
/// cost of the step.
pub fn find_viable_neighbors(
    floor: &Floor,
    pos: IVec2,
    visible_objects: &Option<Vec<usize>>,
    ignore_door_collision: bool,
    _randomness: Option<i32>,
) -> (neighbors: Vec<(IVec2, i32)>)
    requires
        floor.wf(),
    ensures
        neighbors@ == floor.viable_neighbors(
            pos,
            places_view(*visible_objects),
            ignore_door_collision,
        ),
{
    let candidates = [pos.offset(-1, 0), pos.offset(1, 0), pos.offset(0, -1), pos.offset(0, 1)];
    let ghost visible = places_view(*visible_objects);
    let mut neighbors: Vec<(IVec2, i32)> = Vec::new();
    let mut k: usize = 0;
    while k < 4
        invariant
            floor.wf(),
            k <= 4,
            visible == places_view(*visible_objects),
            candidates@ == neighbors_of(pos),
            neighbors@ == (if k >= 1 {
                floor.kept(candidates@[0], visible, ignore_door_collision)
            } else {
                Seq::empty()
            }) + (if k >= 2 {
                floor.kept(candidates@[1], visible, ignore_door_collision)
            } else {
                Seq::empty()
            }) + (if k >= 3 {
                floor.kept(candidates@[2], visible, ignore_door_collision)
            } else {
                Seq::empty()
            }) + (if k >= 4 {
                floor.kept(candidates@[3], visible, ignore_door_collision)
            } else {
                Seq::empty()
            }),
        decreases 4 - k,
    {
        let p = candidates[k];
        let ok = match tile_index(p) {
            Some(i) => {
                proof {
                    lemma_index_round_trip(p);
                }
                let in_sight = match visible_objects {
                    Some(v) => is_listed(v, i),
                    None => true,
                };
                let obj = &floor.objects[i];
                in_sight && (!obj.is_collidable() || (ignore_door_collision && obj.door.is_some()))
            },
            None => false,
        };
        let ghost before = neighbors@;
        if ok {
            neighbors.push((p, 1));
        }
        assert(neighbors@ =~= before + floor.kept(p, visible, ignore_door_collision));
        k = k + 1;
    }
    neighbors
}

/// The route that the search finds on a grid of passable tiles, as a list
/// of tile coordinates from the start to the goal, both included.
pub uninterp spec fn astar_tiles(
    grid: Seq<bool>,
    start_x: int,
    start_y: int,
    goal_x: int,
    goal_y: int,
) -> Option<Seq<(int, int)>>;

/// A route as plain pairs of coordinates.
pub open spec fn route_pairs(route: Option<Vec<IVec2>>) -> Option<Seq<(int, int)>> {
    match route {
        Some(r) => Some(Seq::new(r@.len(), |k: int| (r@[k].x as int, r@[k].y as int))),
        None => None,
    }
}

/// Runs `pathfinding::prelude::astar` over the tiles of `floor`, with
/// `find_viable_neighbors` for the successors, `distance_squared` to the goal
/// for the heuristic, and arrival on `goal` for success. The contract claims
/// what the crate documents: the result depends on the arguments alone; a
/// route that is returned starts at `start`, ends at `goal` and takes only
/// steps that the successor function offers; no tile occurs twice in it;
/// and no route is returned only where none exists. It does not claim that
/// the route is a shortest one, since the heuristic may overestimate.
#[verifier::external_body]
fn astar_route(
    floor: &Floor,
    start: IVec2,
    goal: IVec2,
    visible: &Option<Vec<usize>>,
    ignore_door_collision: bool,
) -> (route: Option<Vec<IVec2>>)
    requires
        floor.wf(),
        in_bounds(goal),
    ensures
        route_pairs(route) == astar_tiles(
            floor.passable_grid(places_view(*visible), ignore_door_collision),
            start.x as int,
            start.y as int,
            goal.x as int,
            goal.y as int,
        ),
        route matches Some(r) ==> floor.is_route(
            start,
            goal,
            places_view(*visible),
            ignore_door_collision,
            r@,
        ) && r@.no_duplicates(),
        route is None ==> !floor.reachable(
            start,
            goal,
            places_view(*visible),
            ignore_door_collision,
        ),
{
    astar(
        &start,
        |p| find_viable_neighbors(floor, *p, visible, ignore_door_collision, None),
        |p| heuristic(*p, goal),
        |p| is_goal(*p, goal),
    ).map(|found| found.0)
}

/// Whether the search has arrived.
pub fn is_goal(pos: IVec2, goal: IVec2) -> (r: bool)
    ensures
        r == (pos == goal),
{
    pos == goal
}

/// The estimate of the cost from `pos` to `goal` that guides the search:
/// the squared distance, or zero for a tile off the map, which the search
/// never has to rate.
pub fn heuristic(pos: IVec2, goal: IVec2) -> (h: i32)
    requires
        in_bounds(goal),
    ensures
        in_bounds(pos) ==> h == distance_squared_spec(pos, goal),
        !in_bounds(pos) ==> h == 0,
{
    if pos.x >= 0 && pos.x < MAP_WIDTH_TILES as i32 && pos.y >= 0 && pos.y < MAP_HEIGHT_TILES as i32 {
        assert(distance_squared_spec(pos, goal) <= 50 * 50 + 50 * 50) by (nonlinear_arith)
            requires
                -50 <= goal.x - pos.x <= 50,
                -50 <= goal.y - pos.y <= 50,
                distance_squared_spec(pos, goal) == (goal.x - pos.x) * (goal.x - pos.x) + (goal.y
                    - pos.y) * (goal.y - pos.y),
        ;
        distance_squared(pos, goal)
    } else {
        0
    }
}

/// The tiles after the first of a route, as the centers of those tiles.
pub open spec fn waypoints(route: Seq<IVec2>) -> Seq<Vec2> {
    Seq::new((route.len() - 1) as nat, |k: int| tile_center(route[k + 1]))
}

/// The route between two tiles that the search finds, if there is one.
pub open spec fn route_between(
    floor: &Floor,
    start: IVec2,
    goal: IVec2,
    visible: Option<Seq<usize>>,
    ignore_door_collision: bool,
) -> Option<Seq<IVec2>> {
    if start == goal {
        Some(seq![start])
    } else if !in_bounds(goal) {
        None
    } else {
        match astar_tiles(
            floor.passable_grid(visible, ignore_door_collision),
            start.x as int,
            start.y as int,
            goal.x as int,
            goal.y as int,
        ) {
            Some(pairs) => Some(
                Seq::new(pairs.len(), |k: int| IVec2 { x: pairs[k].0 as i32, y: pairs[k].1 as i32 }),
            ),
            None => None,
        }
    }
}

/// Plans a way over the tiles from `start` to `goal`.
pub fn find_route(
    floor: &Floor,
    start: IVec2,
    goal: IVec2,
    visible: &Option<Vec<usize>>,
    ignore_door_collision: bool,
) -> (route: Option<Vec<IVec2>>)
    requires
        floor.wf(),
    ensures
        match route {
            Some(r) => Some(r@),
            None => None,
        } == route_between(floor, start, goal, places_view(*visible), ignore_door_collision),
        route matches Some(r) ==> floor.is_route(
            start,
            goal,
            places_view(*visible),
            ignore_door_collision,
            r@,
        ) && r@.no_duplicates(),
        route is Some <==> floor.reachable(
            start,
            goal,
            places_view(*visible),
            ignore_door_collision,
        ),
{
    let ghost vis = places_view(*visible);
    if start == goal {
        let mut r: Vec<IVec2> = Vec::new();
        r.push(start);
        assert(r@ =~= seq![start]);
        assert(floor.is_route(start, goal, vis, ignore_door_collision, r@));
        return Some(r);
    }
    if tile_index(goal).is_none() {
        proof {
            floor.lemma_blocked_goal_unreachable(start, goal, vis, ignore_door_collision);
        }
        return None;
    }
    let found = astar_route(floor, start, goal, visible, ignore_door_collision);
    proof {
        if found is Some {
            let r = found->0;
            let pairs = route_pairs(found)->0;
            assert(Seq::new(
                pairs.len(),
                |k: int| IVec2 { x: pairs[k].0 as i32, y: pairs[k].1 as i32 },
            ) =~= r@);
        }
    }
    found
}

/// Plans a way from the tile under `start` to the tile under `goal` and
/// returns the centers of the tiles to walk over, from the first one after
/// the start to the goal. With `only_visible`, only tiles that `start` sees
/// are walked over; with `ignore_door_collision`, doors count as open.
/// `None` is returned exactly when the goal cannot be reached.
pub fn find_path<S: AsPolygon, G: AsPolygon>(
    start: &S,
    goal: &G,
    floor: &Floor,
    only_visible: bool,
    ignore_door_collision: bool,
    randomness: Option<i32>,
) -> (path: Option<Vec<Vec2>>)
    requires
        floor.wf(),
    ensures
        match path {
            Some(p) => Some(p@),
            None => None,
        } == find_path_spec(
            floor,
            tile_of(start.polygon().center),
            tile_of(goal.polygon().center),
            only_visible,
            ignore_door_collision,
        ),
        path is Some <==> floor.reachable(
            tile_of(start.polygon().center),
            tile_of(goal.polygon().center),
            sight(floor, tile_of(start.polygon().center), only_visible),
            ignore_door_collision,
        ),
        path matches Some(p) ==> exists|route: Seq<IVec2>|
            #![auto]
            floor.is_route(
                tile_of(start.polygon().center),
                tile_of(goal.polygon().center),
                sight(floor, tile_of(start.polygon().center), only_visible),
                ignore_door_collision,
                route,
            ) && route.no_duplicates() && p@ == waypoints(route),
        tile_of(start.polygon().center) != tile_of(goal.polygon().center) && !floor.passable(
            tile_of(goal.polygon().center),
            sight(floor, tile_of(start.polygon().center), only_visible),
            ignore_door_collision,
        ) ==> path is None,
{
    proof {
        let from = tile_of(start.polygon().center);
        let to = tile_of(goal.polygon().center);
        if from != to && !floor.passable(to, sight(floor, from, only_visible), ignore_door_collision) {
            floor.lemma_blocked_goal_unreachable(
                from,
                to,
                sight(floor, from, only_visible),
                ignore_door_collision,
            );
        }
    }
    let start_tile_pos = pos_to_tile(start);
    let goal_tile_pos = pos_to_tile(goal);
    let visible_objects = if only_visible {
        Some(floor.visible_tiles(start_tile_pos, DEFAULT_SIGHT))
    } else {
        None
    };
    match find_route(floor, start_tile_pos, goal_tile_pos, &visible_objects, ignore_door_collision) {
        Some(route) => Some(path_along(&route)),
        None => None,
    }
}

/// Whether the tiles over which a path may be planned on `floor` all lie
/// on the row of `start`, between the columns of `start` and of `goal`.
pub open spec fn is_corridor(
    floor: &Floor,
    start: IVec2,
    goal: IVec2,
    visible: Option<Seq<usize>>,
    ignore_door_collision: bool,
) -> bool {
    &&& start.y == goal.y
    &&& start.x <= goal.x
    &&& forall|p: IVec2|
        #[trigger] floor.passable(p, visible, ignore_door_collision) ==> p.y == start.y && start.x
            <= p.x <= goal.x
}

/// A step along a corridor, from a tile on the row of the corridor, leads
/// to the tile one column before or after it, within the corridor.
pub proof fn lemma_corridor_step(
    floor: &Floor,
    start: IVec2,
    goal: IVec2,
    visible: Option<Seq<usize>>,
    ignore_door_collision: bool,
    a: IVec2,
    b: IVec2,
)
    requires
        is_corridor(floor, start, goal, visible, ignore_door_collision),
        floor.is_step(a, b, visible, ignore_door_collision),
        a.y == start.y,
    ensures
        b.y == start.y,
        start.x <= b.x <= goal.x,
        b.x == a.x + 1 || b.x == a.x - 1,
{
    assert(floor.passable(b, visible, ignore_door_collision));
    assert(in_bounds(b));
    let near = neighbors_of(a);
    let i = choose|i: int| 0 <= i < near.len() && near[i] == b;
    if i == 0 {
        assert(b == a.moved(-1, 0));
    } else if i == 1 {
        assert(b == a.moved(1, 0));
    } else if i == 2 {
        assert(b == a.moved(0, -1));
    } else {
        assert(i == 3);
        assert(b == a.moved(0, 1));
    }
}

/// A route along a corridor in which no tile occurs twice goes straight:
/// its `k`-th tile lies `k` columns after the start.
pub proof fn lemma_corridor_straight(
    floor: &Floor,
    start: IVec2,
    goal: IVec2,
    visible: Option<Seq<usize>>,
    ignore_door_collision: bool,
    route: Seq<IVec2>,
    k: int,
)
    requires
        is_corridor(floor, start, goal, visible, ignore_door_collision),
        floor.is_route(start, goal, visible, ignore_door_collision, route),
        route.no_duplicates(),
        0 <= k < route.len(),
    ensures
        route[k].x == start.x + k,
        route[k].y == start.y,
        start.x + k <= goal.x || k == 0,
    decreases k,
{
    if k > 0 {
        lemma_corridor_straight(floor, start, goal, visible, ignore_door_collision, route, k - 1);
        let a = route[k - 1];
        let b = route[k - 1 + 1];
        assert(floor.is_step(a, b, visible, ignore_door_collision));
        lemma_corridor_step(floor, start, goal, visible, ignore_door_collision, a, b);
        if b.x == a.x - 1 {
            if k >= 2 {
                lemma_corridor_straight(
                    floor,
                    start,
                    goal,
                    visible,
                    ignore_door_collision,
                    route,
                    k - 2,
                );
                let c = route[k - 2];
                assert(c.x == b.x && c.y == b.y);
                assert(c == b);
                assert(route[k - 2] == route[k]);
            } else {
                assert(b.x < start.x);
            }
        }
    }
}

/// On a corridor that can be walked from `start` to `goal`, the path that
/// is found has one waypoint for each tile after the start, each the center
/// of the next tile along the row; the last one is the center of the goal
/// tile. `path` stands for what `find_path` returns between the two tiles.
pub proof fn lemma_corridor_path(
    floor: &Floor,
    start: IVec2,
    goal: IVec2,
    visible: Option<Seq<usize>>,
    ignore_door_collision: bool,
    path: Option<Seq<Vec2>>,
)
    requires
        is_corridor(floor, start, goal, visible, ignore_door_collision),
        forall|x: int|
            start.x < x <= goal.x ==> #[trigger] floor.passable(
                IVec2 { x: x as i32, y: start.y },
                visible,
                ignore_door_collision,
            ),
        path is Some <==> floor.reachable(start, goal, visible, ignore_door_collision),
        path matches Some(p) ==> exists|route: Seq<IVec2>|
            #![auto]
            floor.is_route(start, goal, visible, ignore_door_collision, route)
                && route.no_duplicates() && p == waypoints(route),
    ensures
        path is Some,
        path->0.len() == goal.x - start.x,
        forall|i: int|
            0 <= i < goal.x - start.x ==> #[trigger] path->0[i] == tile_center(
                IVec2 { x: (start.x + 1 + i) as i32, y: start.y },
            ),
{
    let n = goal.x - start.x + 1;
    let straight = Seq::new(n as nat, |k: int| IVec2 { x: (start.x + k) as i32, y: start.y });
    assert(floor.is_route(start, goal, visible, ignore_door_collision, straight)) by {
        assert forall|k: int| 0 <= k < straight.len() - 1 implies floor.is_step(
            #[trigger] straight[k],
            straight[k + 1],
            visible,
            ignore_door_collision,
        ) by {
            let a = straight[k];
            let b = straight[k + 1];
            assert(floor.passable(
                IVec2 { x: (start.x + k + 1) as i32, y: start.y },
                visible,
                ignore_door_collision,
            ));
            assert(neighbors_of(a)[1] == b);
        }
    }
    assert(floor.reachable(start, goal, visible, ignore_door_collision));
    let p = path->0;
    let route = choose|route: Seq<IVec2>|
        #![auto]
        floor.is_route(start, goal, visible, ignore_door_collision, route) && route.no_duplicates()
            && p == waypoints(route);
    lemma_corridor_straight(
        floor,
        start,
        goal,
        visible,
        ignore_door_collision,
        route,
        route.len() - 1,
    );
    assert(route[route.len() - 1] == goal);
    assert(route.len() == n);
    assert forall|i: int| 0 <= i < goal.x - start.x implies #[trigger] p[i] == tile_center(
        IVec2 { x: (start.x + 1 + i) as i32, y: start.y },
    ) by {
        lemma_corridor_straight(floor, start, goal, visible, ignore_door_collision, route, i + 1);
        let tile = route[i + 1];
        assert(tile == (IVec2 { x: (start.x + 1 + i) as i32, y: start.y }));
        assert(p[i] == tile_center(route[i + 1]));
    }
}

/// The waypoints of a route over the tiles: the centers of its tiles, from
/// the one after the first on. A route without tiles has no waypoints.
pub fn path_along(route: &Vec<IVec2>) -> (path: Vec<Vec2>)
    ensures
        route@.len() >= 1 ==> path@ == waypoints(route@),
        route@.len() == 0 ==> path@.len() == 0,
{
    let mut path: Vec<Vec2> = Vec::new();
    let mut k: usize = 1;
    while k < route.len()
        invariant
            1 <= k,
            k <= route@.len() || route@.len() == 0,
            route@.len() == 0 ==> k == 1,
            path@.len() == k - 1,
            forall|j: int| 0 <= j < k - 1 ==> path@[j] == tile_center(route@[j + 1]),
        decreases route@.len() - k,
    {
        path.push(tile_to_world_center(route[k]));
        k = k + 1;
    }
    if route.len() >= 1 {
        assert(path@ =~= waypoints(route@));
    }
    path
}

/// The places that a planner standing on `start` may use: what it sees
/// within `DEFAULT_SIGHT` tiles where `only_visible` holds, and no limit
/// otherwise.
pub open spec fn sight(floor: &Floor, start: IVec2, only_visible: bool) -> Option<Seq<usize>> {
    if only_visible {
        Some(floor.visible_from(start, DEFAULT_SIGHT as int))
    } else {
        None
    }
}

/// The waypoints that `find_path` returns for a start tile and a goal tile.
pub open spec fn find_path_spec(
    floor: &Floor,
    start: IVec2,
    goal: IVec2,
    only_visible: bool,
    ignore_door_collision: bool,
) -> Option<Seq<Vec2>> {
    match route_between(floor, start, goal, sight(floor, start, only_visible), ignore_door_collision) {
        Some(route) => Some(waypoints(route)),
        None => None,
    }
}

impl Floor {
    pub fn find_path<S: AsPolygon, G: AsPolygon>(
        &self,
        pos: &S,
        goal: &G,
        only_visible: bool,
        ignore_door_collision: bool,
        randomness: Option<i32>,
    ) -> (path: Option<Vec<Vec2>>)
        requires
            self.wf(),
        ensures
            match path {
                Some(p) => Some(p@),
                None => None,
            } == find_path_spec(
                self,
                tile_of(pos.polygon().center),
                tile_of(goal.polygon().center),
                only_visible,
                ignore_door_collision,
            ),
            path is Some <==> self.reachable(
                tile_of(pos.polygon().center),
                tile_of(goal.polygon().center),
                sight(self, tile_of(pos.polygon().center), only_visible),
                ignore_door_collision,
            ),
            path matches Some(p) ==> exists|route: Seq<IVec2>|
                #![auto]
                self.is_route(
                    tile_of(pos.polygon().center),
                    tile_of(goal.polygon().center),
                    sight(self, tile_of(pos.polygon().center), only_visible),
                    ignore_door_collision,
                    route,
                ) && route.no_duplicates() && p@ == waypoints(route),
            tile_of(pos.polygon().center) != tile_of(goal.polygon().center) && !self.passable(
                tile_of(goal.polygon().center),
                sight(self, tile_of(pos.polygon().center), only_visible),
                ignore_door_collision,
            ) ==> path is None,
    {
        find_path(pos, goal, self, only_visible, ignore_door_collision, randomness)
    }
}

/// One level of the dungeon: its tiles, its rooms, where players enter and
/// leave it, and the monsters in it.
#[derive(Clone, Debug)]
pub struct FloorInfo {
    pub spawn: Vec2,
    pub monster_types: Vec<MonsterKind>,
    pub item_types: Vec<ItemType>,
    pub monsters: Vec<MonsterObj>,
    pub floor: Floor,
    pub rooms: Vec<Room>,
    pub exit: Object,
}

impl FloorInfo {
    /// Whether `after` is `self` but for the monsters.
    pub open spec fn same_but_monsters(&self, after: FloorInfo) -> bool {
        &&& after.spawn == self.spawn
        &&& after.monster_types == self.monster_types
        &&& after.item_types == self.item_types
        &&& after.floor == self.floor
        &&& after.rooms == self.rooms
        &&& after.exit == self.exit
    }

    /// Whether `after` is `self` but for the monsters and the tiles.
    pub open spec fn same_but_monsters_and_floor(&self, after: FloorInfo) -> bool {
        &&& after.spawn == self.spawn
        &&& after.monster_types == self.monster_types
        &&& after.item_types == self.item_types
        &&& after.rooms == self.rooms
        &&& after.exit == self.exit
    }

    pub fn rooms(&self) -> (rooms: &Vec<Room>)
        ensures
            rooms == &self.rooms,
    {
        &self.rooms
    }

    pub fn exit(&self) -> (exit: &Object)
        ensures
            exit == &self.exit,
    {
        &self.exit
    }

    pub fn current_spawn(&self) -> (spawn: Vec2)
        ensures
            spawn == self.spawn,
    {
        self.spawn
    }

    /// Whether any player touches the exit, so that the party goes down a
    /// floor.
    pub fn should_descend(&self, players: &Vec<Player>) -> (r: bool)
        ensures
            r == exists|i: int|
                0 <= i < players@.len() && (#[trigger] players@[i]).polygon().collides(
                    self.exit.polygon(),
                    0,
                    0,
                ),
    {
        let mut i: usize = 0;
        while i < players.len()
            invariant
                i <= players@.len(),
                forall|j: int|
                    0 <= j < i ==> !(#[trigger] players@[j]).polygon().collides(
                        self.exit.polygon(),
                        0,
                        0,
                    ),
            decreases players@.len() - i,
        {
            if crate::math::aabb_collision(&players[i], &self.exit, Vec2 { x: 0, y: 0 }) {
                return true;
            }
            i = i + 1;
        }
        false
    }
}

/// What the traps act on: the tiles, the monsters, the players and the
/// state of the generator.
pub struct TrapWorld {
    pub objects: Seq<Object>,
    pub monsters: Seq<MonsterView>,
    pub players: Seq<Player>,
    pub state: u64,
}

/// The tile strictly inside the wall of a room at `site` that two draws
/// select, the first for the column and the second for the row.
#[verifier::opaque]
pub open spec fn drawn_in(site: RoomSite, state: u64) -> IVec2 {
    IVec2 {
        x: scale_to_range(site.top_left.x + 1, site.bottom_right.x - 1, output(state)) as i32,
        y: scale_to_range(
            site.top_left.y + 1,
            site.bottom_right.y - 1,
            output(next_state(state)),
        ) as i32,
    }
}

/// The tile strictly inside the wall of `room` that two draws select.
pub open spec fn drawn_tile(room: Room, state: u64) -> IVec2 {
    drawn_in(site_of(room), state)
}

/// Draws a tile strictly inside the wall of `room`.
pub fn draw_tile(room: &Room, rng: &mut Rng) -> (tile: IVec2)
    requires
        room.wf(),
    ensures
        tile == drawn_tile(*room, old(rng).state),
        final(rng).state == next_state(next_state(old(rng).state)),
        room.bottom_right.x - room.top_left.x >= 3 && room.bottom_right.y - room.top_left.y >= 3
            ==> room.inside(tile),
{
    reveal(drawn_in);
    let x = rng.gen_range(room.top_left.x + 1, room.bottom_right.x - 1);
    let y = rng.gen_range(room.top_left.y + 1, room.bottom_right.y - 1);
    IVec2 { x, y }
}

/// The index into a list of `len` items that a draw selects.
#[verifier::opaque]
pub open spec fn drawn_index(len: int, state: u64) -> int {
    (len * output(state)) / 0x1_0000_0000
}

/// The index that a draw selects lies in the list.
pub proof fn lemma_drawn_index_bounds(len: int, state: u64)
    requires
        len > 0,
    ensures
        0 <= drawn_index(len, state) < len,
{
    reveal(drawn_index);
    let r = output(state);
    assert(0 <= (len * r) / 0x1_0000_0000 < len) by (nonlinear_arith)
        requires
            len > 0,
            0 <= r < 0x1_0000_0000,
    ;
}

/// Draws an index into a list of `len` items.
pub fn draw_index(len: usize, rng: &mut Rng) -> (r: Option<usize>)
    ensures
        final(rng).state == next_state(old(rng).state),
        len == 0 ==> r is None,
        len > 0 ==> r is Some && r->0 < len && r->0 == drawn_index(len as int, old(rng).state),
{
    reveal(drawn_index);
    rng.choose_index(len)
}

/// The monster of the given kind that is spawned at `pos`, and the state of
/// the generator afterwards: a rat draws the time that it waits at first.
#[verifier::opaque]
pub open spec fn spawned(kind: MonsterKind, pos: Vec2, state: u64) -> (MonsterView, u64) {
    match kind {
        MonsterKind::SmallRat => (
            MonsterView::SmallRat(
                crate::monsters::small_rat::SmallRatView {
                    pos,
                    health: crate::monsters::small_rat::MAX_HEALTH,
                    attack_mode: crate::monsters::AttackMode::Passive,
                    time_til_move: scale_to_range(0, 180, output(state)) as u16,
                    time_spent_moving: 0,
                    current_path: None,
                    current_target: None,
                    enchantments: crate::enchantments::EnchantmentSet {
                        blinded: None,
                        sticky: None,
                        regenerating: None,
                    },
                    damaged_by: Seq::empty(),
                    speed_mul: 1000,
                },
            ),
            next_state(state),
        ),
        MonsterKind::GreenSlime => (
            MonsterView::GreenSlime(
                crate::monsters::slime::GreenSlimeView {
                    pos,
                    health: crate::monsters::slime::MAX_HEALTH,
                    attack_mode: crate::monsters::AttackMode::Passive,
                    current_path: None,
                    current_target: None,
                    enchantments: crate::enchantments::EnchantmentSet {
                        blinded: None,
                        sticky: None,
                        regenerating: None,
                    },
                    damaged_by: Seq::empty(),
                    time_til_attack: crate::monsters::slime::FIRST_ATTACK_DELAY,
                },
            ),
            state,
        ),
    }
}

/// Spawns a monster of the given kind at `pos`.
pub fn spawn_monster(kind: MonsterKind, pos: Vec2, rng: &mut Rng) -> (m: MonsterObj)
    ensures
        (m@, final(rng).state) == spawned(kind, pos, old(rng).state),
        monster_pos(m@) == pos,
        monster_living(m@),
{
    reveal(spawned);
    match kind {
        MonsterKind::SmallRat => MonsterObj::SmallRat(
            crate::monsters::small_rat::SmallRat::new(pos, rng),
        ),
        MonsterKind::GreenSlime => MonsterObj::GreenSlime(
            crate::monsters::slime::GreenSlime::new(pos),
        ),
    }
}

/// The monsters and the state of the generator after `n` monsters have
/// been spawned in `room`: for each, a tile inside the room is drawn, then a
/// kind among `kinds`, and where there is a kind the monster is spawned on
/// the corner of the tile.
pub open spec fn burst(
    monsters: Seq<MonsterView>,
    state: u64,
    room: Room,
    kinds: Seq<MonsterKind>,
    n: int,
) -> (Seq<MonsterView>, u64)
    decreases n,
{
    if n <= 0 {
        (monsters, state)
    } else {
        let (before, state1) = burst(monsters, state, room, kinds, n - 1);
        let tile = drawn_tile(room, state1);
        let state2 = next_state(next_state(state1));
        let state3 = next_state(state2);
        if kinds.len() == 0 {
            (before, state3)
        } else {
            let (monster, state4) = spawned(
                kinds[drawn_index(kinds.len() as int, state2)],
                tile_corner(tile),
                state3,
            );
            (before.push(monster), state4)
        }
    }
}

/// The place of the first of `rooms`, at or after `from`, that `tile` is
/// strictly inside of.
pub open spec fn room_around(rooms: Seq<Room>, tile: IVec2, from: int) -> Option<int>
    decreases rooms.len() - from,
{
    if from < 0 || from >= rooms.len() {
        None
    } else if rooms[from].inside(tile) {
        Some(from)
    } else {
        room_around(rooms, tile, from + 1)
    }
}

/// The first of `rooms` that `tile` is strictly inside of.
pub fn find_room_around(rooms: &Vec<Room>, tile: IVec2) -> (r: Option<usize>)
    ensures
        match r {
            Some(k) => Some(k as int),
            None => None,
        } == room_around(rooms@, tile, 0),
        r matches Some(k) ==> k < rooms@.len(),
{
    let mut k: usize = 0;
    while k < rooms.len()
        invariant
            k <= rooms@.len(),
            room_around(rooms@, tile, 0) == room_around(rooms@, tile, k as int),
        decreases rooms@.len() - k,
    {
        if rooms[k].inside_room(tile) {
            return Some(k);
        }
        k = k + 1;
    }
    None
}

/// The tile with its trap gone off.
pub open spec fn tripped(o: Object) -> Object {
    match o.trap {
        Some(t) => Object { trap: Some(Trap { triggered: true, ..t }), ..o },
        None => o,
    }
}

/// The world after the trap at `place` has gone off under the player with
/// index `i`. A teleport trap draws a room and a tile inside it and puts the
/// player on the corner of that tile; where there is no room the player
/// stays. A spawning trap lets a burst of six monsters loose in the room
/// around the player; where the player is in no room, nothing comes.
pub open spec fn sprung(
    w: TrapWorld,
    rooms: Seq<Room>,
    kinds: Seq<MonsterKind>,
    place: int,
    i: int,
) -> TrapWorld {
    let set_off = TrapWorld { objects: w.objects.update(place, tripped(w.objects[place])), ..w };
    match w.objects[place].trap {
        Some(trap) => match trap.trap_type {
            TrapType::Teleport => if rooms.len() == 0 {
                TrapWorld { state: next_state(w.state), ..set_off }
            } else {
                let room = rooms[drawn_index(rooms.len() as int, w.state)];
                TrapWorld {
                    players: w.players.update(
                        i,
                        Player {
                            pos: tile_corner(drawn_tile(room, next_state(w.state))),
                            ..w.players[i]
                        },
                    ),
                    state: next_state(next_state(next_state(w.state))),
                    ..set_off
                }
            },
            TrapType::SpawnMonster => match room_around(
                rooms,
                tile_of(w.players[i].polygon().center),
                0,
            ) {
                Some(r) => TrapWorld {
                    monsters: burst(w.monsters, w.state, rooms[r], kinds, 6).0,
                    state: burst(w.monsters, w.state, rooms[r], kinds, 6).1,
                    ..set_off
                },
                None => set_off,
            },
        },
        None => w,
    }
}

/// The world after the trap at `place` has been held against the first `n`
/// players, one after the other: it goes off under each player who stands on
/// its tile when the player's turn comes.
pub open spec fn trap_checked(
    w: TrapWorld,
    rooms: Seq<Room>,
    kinds: Seq<MonsterKind>,
    place: int,
    n: int,
) -> TrapWorld
    decreases n,
{
    if n <= 0 || n > w.players.len() {
        w
    } else {
        let before = trap_checked(w, rooms, kinds, place, n - 1);
        if n - 1 < before.players.len() && tile_of(before.players[n - 1].polygon().center)
            == before.objects[place].pos {
            sprung(before, rooms, kinds, place, n - 1)
        } else {
            before
        }
    }
}

/// The world after the traps at the first `n` of `places` have been
/// checked, one after the other.
pub open spec fn traps_checked(
    w: TrapWorld,
    rooms: Seq<Room>,
    kinds: Seq<MonsterKind>,
    places: Seq<usize>,
    n: int,
) -> TrapWorld
    decreases n,
{
    if n <= 0 || n > places.len() {
        w
    } else {
        let before = traps_checked(w, rooms, kinds, places, n - 1);
        trap_checked(before, rooms, kinds, places[n - 1] as int, before.players.len() as int)
    }
}

/// The places, among the first `n` tiles, of the traps that have not gone
/// off.
pub open spec fn live_traps(objects: Seq<Object>, n: int) -> Seq<usize>
    decreases n,
{
    if n <= 0 || n > objects.len() {
        Seq::empty()
    } else if objects[n - 1].trap is Some && !objects[n - 1].trap->0.triggered {
        live_traps(objects, n - 1).push((n - 1) as usize)
    } else {
        live_traps(objects, n - 1)
    }
}

impl FloorInfo {
    /// The world that the traps of this floor act on.
    pub open spec fn trap_world(&self, players: Seq<Player>, state: u64) -> TrapWorld {
        TrapWorld {
            objects: self.floor.objects@,
            monsters: monster_views(self.monsters@),
            players,
            state,
        }
    }

    /// The places of the traps that have not gone off.
    pub fn live_trap_places(&self) -> (places: Vec<usize>)
        ensures
            places@ == live_traps(self.floor.objects@, self.floor.objects@.len() as int),
            forall|k: int|
                0 <= k < places@.len() ==> (#[trigger] places@[k]) < self.floor.objects@.len()
                    && self.floor.objects@[places@[k] as int].trap is Some,
    {
        let mut places: Vec<usize> = Vec::new();
        let mut i: usize = 0;
        while i < self.floor.objects.len()
            invariant
                i <= self.floor.objects@.len(),
                places@ == live_traps(self.floor.objects@, i as int),
                forall|k: int|
                    0 <= k < places@.len() ==> (#[trigger] places@[k]) < i
                        && self.floor.objects@[places@[k] as int].trap is Some,
            decreases self.floor.objects@.len() - i,
        {
            let live = match self.floor.objects[i].trap {
                Some(trap) => !trap.triggered,
                None => false,
            };
            if live {
                places.push(i);
            }
            i = i + 1;
        }
        places
    }

    /// Lets a burst of `n` monsters loose in the room at place `r`.
    pub fn spawn_burst(&mut self, r: usize, n: usize, rng: &mut Rng)
        requires
            r < old(self).rooms@.len(),
            old(self).rooms@[r as int].wf(),
        ensures
            old(self).same_but_monsters(*final(self)),
            (monster_views(final(self).monsters@), final(rng).state) == burst(
                monster_views(old(self).monsters@),
                old(rng).state,
                old(self).rooms@[r as int],
                old(self).monster_types@,
                n as int,
            ),
    {
        let mut k: usize = 0;
        while k < n
            invariant
                k <= n,
                r < self.rooms@.len(),
                self.rooms@[r as int].wf(),
                old(self).same_but_monsters(*self),
                (monster_views(self.monsters@), rng.state) == burst(
                    monster_views(old(self).monsters@),
                    old(rng).state,
                    old(self).rooms@[r as int],
                    old(self).monster_types@,
                    k as int,
                ),
            decreases n - k,
        {
            let tile_pos = draw_tile(&self.rooms[r], rng);
            let pos = tile_to_world(tile_pos);
            match draw_index(self.monster_types.len(), rng) {
                Some(kind) => {
                    let ghost before = monster_views(self.monsters@);
                    let monster = spawn_monster(self.monster_types[kind], pos, rng);
                    let ghost view = monster@;
                    self.monsters.push(monster);
                    assert(monster_views(self.monsters@) =~= before.push(view));
                },
                None => {},
            }
            k = k + 1;
        }
    }

    /// Lets the trap at `place` go off under the player with index `i`.
    pub fn spring_trap(&mut self, place: usize, i: usize, players: &mut Vec<Player>, rng: &mut Rng)
        requires
            place < old(self).floor.objects@.len(),
            old(self).floor.objects@[place as int].trap is Some,
            i < old(players)@.len(),
            forall|k: int| 0 <= k < old(self).rooms@.len() ==> (#[trigger] old(self).rooms@[k]).wf(),
        ensures
            old(self).same_but_monsters_and_floor(*final(self)),
            final(self).trap_world(final(players)@, final(rng).state) == sprung(
                old(self).trap_world(old(players)@, old(rng).state),
                old(self).rooms@,
                old(self).monster_types@,
                place as int,
                i as int,
            ),
            final(players)@.len() == old(players)@.len(),
            final(self).floor.objects@.len() == old(self).floor.objects@.len(),
            old(self).floor.wf() ==> final(self).floor.wf(),
            forall|k: int|
                0 <= k < final(self).floor.objects@.len() ==> (
                #[trigger] final(self).floor.objects@[k]).pos == old(self).floor.objects@[k].pos
                    && final(self).floor.objects@[k].trap is Some == old(self).floor.objects@[k].trap is Some,
    {
        let trap = self.floor.objects[place].trap.unwrap();
        let player_tile_pos = pos_to_tile(&players[i]);
        self.floor.objects[place].trap = Some(Trap { triggered: true, trap_type: trap.trap_type });
        assert(self.floor.objects@ =~= old(self).floor.objects@.update(
            place as int,
            tripped(old(self).floor.objects@[place as int]),
        ));
        match trap.trap_type {
            TrapType::Teleport => {
                match draw_index(self.rooms.len(), rng) {
                    Some(r) => {
                        let rand_pos = draw_tile(&self.rooms[r], rng);
                        // Pick a random background object to teleport the player to
                        players[i].pos = tile_to_world(rand_pos);
                        assert(players@ =~= old(players)@.update(
                            i as int,
                            Player { pos: tile_corner(rand_pos), ..old(players)@[i as int] },
                        ));
                    },
                    None => {},
                }
            },
            TrapType::SpawnMonster => {
                // Summons six monsters in the room somewhere
                match find_room_around(&self.rooms, player_tile_pos) {
                    Some(r) => {
                        self.spawn_burst(r, 6, rng);
                    },
                    None => {},
                }
            },
        }
    }
}

/// Lets the traps under the players go off: every trap that has not gone
/// off is held against every player in turn.
pub fn trigger_traps(players: &mut Vec<Player>, floor_info: &mut FloorInfo, rng: &mut Rng)
    requires
        forall|k: int|
            0 <= k < old(floor_info).rooms@.len() ==> (#[trigger] old(floor_info).rooms@[k]).wf(),
    ensures
        old(floor_info).same_but_monsters_and_floor(*final(floor_info)),
        final(floor_info).trap_world(final(players)@, final(rng).state) == traps_checked(
            old(floor_info).trap_world(old(players)@, old(rng).state),
            old(floor_info).rooms@,
            old(floor_info).monster_types@,
            live_traps(
                old(floor_info).floor.objects@,
                old(floor_info).floor.objects@.len() as int,
            ),
            live_traps(
                old(floor_info).floor.objects@,
                old(floor_info).floor.objects@.len() as int,
            ).len() as int,
        ),
        final(players)@.len() == old(players)@.len(),
        old(floor_info).floor.wf() ==> final(floor_info).floor.wf(),
{
    let places = floor_info.live_trap_places();
    let ghost start = floor_info.trap_world(players@, rng.state);
    let ghost rooms = floor_info.rooms@;
    let ghost kinds = floor_info.monster_types@;
    let mut t: usize = 0;
    while t < places.len()
        invariant
            t <= places@.len(),
            rooms == old(floor_info).rooms@,
            kinds == old(floor_info).monster_types@,
            forall|k: int| 0 <= k < rooms.len() ==> (#[trigger] rooms[k]).wf(),
            old(floor_info).same_but_monsters_and_floor(*floor_info),
            players@.len() == old(players)@.len(),
            floor_info.floor.objects@.len() == old(floor_info).floor.objects@.len(),
            old(floor_info).floor.wf() ==> floor_info.floor.wf(),
            forall|k: int|
                0 <= k < places@.len() ==> (#[trigger] places@[k]) < floor_info.floor.objects@.len()
                    && floor_info.floor.objects@[places@[k] as int].trap is Some,
            floor_info.trap_world(players@, rng.state) == traps_checked(
                start,
                rooms,
                kinds,
                places@,
                t as int,
            ),
        decreases places@.len() - t,
    {
        let place = places[t];
        let ghost before = floor_info.trap_world(players@, rng.state);
        let mut i: usize = 0;
        while i < players.len()
            invariant
                i <= players@.len(),
                place < floor_info.floor.objects@.len(),
                floor_info.floor.objects@[place as int].trap is Some,
                rooms == old(floor_info).rooms@,
                kinds == old(floor_info).monster_types@,
                forall|k: int| 0 <= k < rooms.len() ==> (#[trigger] rooms[k]).wf(),
                old(floor_info).same_but_monsters_and_floor(*floor_info),
                players@.len() == old(players)@.len(),
                before.players.len() == players@.len(),
                floor_info.floor.objects@.len() == old(floor_info).floor.objects@.len(),
                old(floor_info).floor.wf() ==> floor_info.floor.wf(),
                forall|k: int|
                    0 <= k < places@.len() ==> (#[trigger] places@[k])
                        < floor_info.floor.objects@.len()
                        && floor_info.floor.objects@[places@[k] as int].trap is Some,
                floor_info.trap_world(players@, rng.state) == trap_checked(
                    before,
                    rooms,
                    kinds,
                    place as int,
                    i as int,
                ),
            decreases players@.len() - i,
        {
            let player_tile_pos = pos_to_tile(&players[i]);
            if player_tile_pos == floor_info.floor.objects[place].pos {
                floor_info.spring_trap(place, i, players, rng);
            }
            i = i + 1;
        }
        t = t + 1;
    }
}

/// The enchantment that an effect on a tile puts on whoever stands there.
pub open spec fn effect_enchantment(effect_type: EffectType) -> Enchantment {
    Enchantment { strength: 1, kind: EnchantmentKind::Sticky }
}

/// The enchantment that an effect on a tile puts on whoever stands there.
pub fn enchantment_of(effect_type: EffectType) -> (e: Enchantment)
    ensures
        e == effect_enchantment(effect_type),
{
    Enchantment { strength: 1, kind: EnchantmentKind::Sticky }
}

/// The player after the first `n` of `effects` have acted on it.
pub open spec fn player_affected(player: Player, effects: Seq<Effect>, n: int) -> Player
    decreases n,
{
    if n <= 0 || n > effects.len() {
        player
    } else {
        player_affected(player, effects, n - 1).enchanted(
            effect_enchantment(effects[n - 1].effect_type),
        )
    }
}

/// The monster after the first `n` of `effects` have acted on it.
pub open spec fn monster_affected(monster: MonsterView, effects: Seq<Effect>, n: int) -> MonsterView
    decreases n,
{
    if n <= 0 || n > effects.len() {
        monster
    } else {
        monster_enchanted(
            monster_affected(monster, effects, n - 1),
            effect_enchantment(effects[n - 1].effect_type),
        )
    }
}

/// The effects on the tile `tile`; none off the map.
pub open spec fn effects_at(floor: &Floor, tile: IVec2) -> Seq<Effect> {
    if in_bounds(tile) {
        floor.at(tile).effects@
    } else {
        Seq::empty()
    }
}

/// Lets the effects that lie on the tiles act on the players and the
/// monsters who stand on them.
pub fn set_effects(players: &mut Vec<Player>, floor_info: &mut FloorInfo)
    requires
        old(floor_info).floor.wf(),
    ensures
        old(floor_info).same_but_monsters(*final(floor_info)),
        final(players)@.len() == old(players)@.len(),
        forall|i: int|
            0 <= i < old(players)@.len() ==> #[trigger] final(players)@[i] == player_affected(
                old(players)@[i],
                effects_at(&old(floor_info).floor, tile_of(old(players)@[i].polygon().center)),
                effects_at(
                    &old(floor_info).floor,
                    tile_of(old(players)@[i].polygon().center),
                ).len() as int,
            ),
        final(floor_info).monsters@.len() == old(floor_info).monsters@.len(),
        forall|i: int|
            0 <= i < old(floor_info).monsters@.len() ==> (
            #[trigger] final(floor_info).monsters@[i])@ == monster_affected(
                old(floor_info).monsters@[i]@,
                effects_at(
                    &old(floor_info).floor,
                    tile_of(monster_polygon(old(floor_info).monsters@[i]@).center),
                ),
                effects_at(
                    &old(floor_info).floor,
                    tile_of(monster_polygon(old(floor_info).monsters@[i]@).center),
                ).len() as int,
            ),
{
    let mut i: usize = 0;
    while i < players.len()
        invariant
            i <= players@.len(),
            *floor_info == *old(floor_info),
            floor_info.floor.wf(),
            players@.len() == old(players)@.len(),
            forall|j: int|
                0 <= j < i ==> #[trigger] players@[j] == player_affected(
                    old(players)@[j],
                    effects_at(&floor_info.floor, tile_of(old(players)@[j].polygon().center)),
                    effects_at(
                        &floor_info.floor,
                        tile_of(old(players)@[j].polygon().center),
                    ).len() as int,
                ),
            forall|j: int| i <= j < players@.len() ==> players@[j] == old(players)@[j],
        decreases players@.len() - i,
    {
        let tile = pos_to_tile(&players[i]);
        match tile_index(tile) {
            Some(place) => {
                proof {
                    lemma_index_round_trip(tile);
                }
                let mut e: usize = 0;
                while e < floor_info.floor.objects[place].effects.len()
                    invariant
                        i < players@.len(),
                        place < floor_info.floor.objects@.len(),
                        e <= floor_info.floor.objects@[place as int].effects@.len(),
                        players@.len() == old(players)@.len(),
                        players@[i as int] == player_affected(
                            old(players)@[i as int],
                            floor_info.floor.objects@[place as int].effects@,
                            e as int,
                        ),
                        forall|j: int|
                            0 <= j < players@.len() && j != i ==> players@[j] == old(players)@[j] || j < i,
                        forall|j: int|
                            0 <= j < i ==> #[trigger] players@[j] == player_affected(
                                old(players)@[j],
                                effects_at(
                                    &floor_info.floor,
                                    tile_of(old(players)@[j].polygon().center),
                                ),
                                effects_at(
                                    &floor_info.floor,
                                    tile_of(old(players)@[j].polygon().center),
                                ).len() as int,
                            ),
                        forall|j: int| i < j < players@.len() ==> players@[j] == old(players)@[j],
                    decreases floor_info.floor.objects@[place as int].effects@.len() - e,
                {
                    let enchantment = enchantment_of(
                        floor_info.floor.objects[place].effects[e].effect_type,
                    );
                    players[i].apply_enchantment(enchantment);
                    e = e + 1;
                }
            },
            None => {},
        }
        i = i + 1;
    }
    let mut m: usize = 0;
    while m < floor_info.monsters.len()
        invariant
            m <= floor_info.monsters@.len(),
            old(floor_info).same_but_monsters(*floor_info),
            floor_info.floor.wf(),
            floor_info.monsters@.len() == old(floor_info).monsters@.len(),
            forall|j: int|
                0 <= j < m ==> (#[trigger] floor_info.monsters@[j])@ == monster_affected(
                    old(floor_info).monsters@[j]@,
                    effects_at(
                        &floor_info.floor,
                        tile_of(monster_polygon(old(floor_info).monsters@[j]@).center),
                    ),
                    effects_at(
                        &floor_info.floor,
                        tile_of(monster_polygon(old(floor_info).monsters@[j]@).center),
                    ).len() as int,
                ),
            forall|j: int|
                m <= j < floor_info.monsters@.len() ==> floor_info.monsters@[j] == old(floor_info).monsters@[j],
        decreases floor_info.monsters@.len() - m,
    {
        let shape = floor_info.monsters[m].as_polygon();
        let tile = world_to_tile(shape.center);
        match tile_index(tile) {
            Some(place) => {
                proof {
                    lemma_index_round_trip(tile);
                }
                let mut e: usize = 0;
                while e < floor_info.floor.objects[place].effects.len()
                    invariant
                        m < floor_info.monsters@.len(),
                        place < floor_info.floor.objects@.len(),
                        e <= floor_info.floor.objects@[place as int].effects@.len(),
                        old(floor_info).same_but_monsters(*floor_info),
                        floor_info.monsters@.len() == old(floor_info).monsters@.len(),
                        floor_info.monsters@[m as int]@ == monster_affected(
                            old(floor_info).monsters@[m as int]@,
                            floor_info.floor.objects@[place as int].effects@,
                            e as int,
                        ),
                        forall|j: int|
                            0 <= j < m ==> (#[trigger] floor_info.monsters@[j])@
                                == monster_affected(
                                old(floor_info).monsters@[j]@,
                                effects_at(
                                    &floor_info.floor,
                                    tile_of(monster_polygon(old(floor_info).monsters@[j]@).center),
                                ),
                                effects_at(
                                    &floor_info.floor,
                                    tile_of(monster_polygon(old(floor_info).monsters@[j]@).center),
                                ).len() as int,
                            ),
                        forall|j: int|
                            m < j < floor_info.monsters@.len() ==> floor_info.monsters@[j] == old(floor_info).monsters@[j],
                    decreases floor_info.floor.objects@[place as int].effects@.len() - e,
                {
                    let enchantment = enchantment_of(
                        floor_info.floor.objects[place].effects[e].effect_type,
                    );
                    floor_info.monsters[m].apply_enchantment(enchantment);
                    e = e + 1;
                }
            },
            None => {},
        }
        m = m + 1;
    }
}

/// Why a floor could not be generated.
#[derive(Clone, Copy, Debug, PartialEq, Eq, Structural)]
pub enum GenerationError {
    /// No room was reached by a hallway, so that there is nowhere to put
    /// the players.
    NoRooms,
}

/// Whether the monster `m` is one that a new floor is stocked with: it is
/// alive and stands on the corner of a tile strictly inside one of `rooms`,
/// which is not the room in which the players enter at `spawn`.
pub open spec fn stocked(rooms: Seq<Room>, spawn: Vec2, m: MonsterView) -> bool {
    monster_living(m) && exists|k: int, tile: IVec2|
        0 <= k < rooms.len() && (#[trigger] rooms[k]).inside(tile) && !rooms[k].inside(
            tile_of(spawn),
        ) && #[trigger] tile_corner(tile) == monster_pos(m)
}

/// A living monster on the corner of a tile inside a room other than the
/// one in which the players enter is one that a floor is stocked with.
pub proof fn lemma_stocked(rooms: Seq<Room>, spawn: Vec2, m: MonsterView, k: int, tile: IVec2)
    requires
        monster_living(m),
        0 <= k < rooms.len(),
        rooms[k].inside(tile),
        !rooms[k].inside(tile_of(spawn)),
        tile_corner(tile) == monster_pos(m),
    ensures
        stocked(rooms, spawn, m),
{
}

/// How many monsters a room holds at most when the floor is new, plus one.
pub const MONSTERS_PER_ROOM: i32 = 6;

/// The monsters and the state of the generator after `n` monsters have
/// been spawned at `pos`: for each, a kind is drawn among `kinds` and the
/// monster of that kind is spawned.
pub open spec fn pack(
    monsters: Seq<MonsterView>,
    state: u64,
    pos: Vec2,
    kinds: Seq<MonsterKind>,
    n: int,
) -> (Seq<MonsterView>, u64)
    decreases n,
{
    if n <= 0 {
        (monsters, state)
    } else {
        let (before, state1) = pack(monsters, state, pos, kinds, n - 1);
        let (monster, state2) = spawned(
            kinds[drawn_index(kinds.len() as int, state1)],
            pos,
            next_state(state1),
        );
        (before.push(monster), state2)
    }
}

/// Spawns `count` monsters at `pos`, the kind of each drawn among `kinds`.
pub fn spawn_pack(
    monsters: &mut Vec<MonsterObj>,
    kinds: &Vec<MonsterKind>,
    pos: Vec2,
    count: i32,
    rng: &mut Rng,
)
    requires
        kinds@.len() > 0,
    ensures
        (monster_views(final(monsters)@), final(rng).state) == pack(
            monster_views(old(monsters)@),
            old(rng).state,
            pos,
            kinds@,
            count as int,
        ),
        final(monsters)@.len() >= old(monsters)@.len(),
        forall|m: int|
            0 <= m < old(monsters)@.len() ==> #[trigger] final(monsters)@[m] == old(monsters)@[m],
        forall|m: int|
            old(monsters)@.len() <= m < final(monsters)@.len() ==> monster_pos(
                (#[trigger] final(monsters)@[m])@,
            ) == pos && monster_living(final(monsters)@[m]@),
{
    let mut c: i32 = 0;
    while c < count
        invariant
            kinds@.len() > 0,
            0 <= c,
            c <= count || count < 0,
            count < 0 ==> c == 0,
            (monster_views(monsters@), rng.state) == pack(
                monster_views(old(monsters)@),
                old(rng).state,
                pos,
                kinds@,
                c as int,
            ),
            monsters@.len() >= old(monsters)@.len(),
            forall|m: int|
                0 <= m < old(monsters)@.len() ==> #[trigger] monsters@[m] == old(monsters)@[m],
            forall|m: int|
                old(monsters)@.len() <= m < monsters@.len() ==> monster_pos(
                    (#[trigger] monsters@[m])@,
                ) == pos && monster_living(monsters@[m]@),
        decreases count - c,
    {
        let ghost before = monsters@;
        let ghost state1 = rng.state;
        let kind = draw_index(kinds.len(), rng).unwrap();
        let monster = spawn_monster(kinds[kind], pos, rng);
        monsters.push(monster);
        proof {
            lemma_views_pushed(before, monster);
            lemma_pack_step(
                monster_views(old(monsters)@),
                old(rng).state,
                pos,
                kinds@,
                c as int,
            );
        }
        c = c + 1;
    }
    proof {
        if count < 0 {
            assert(c == 0);
            assert(pack(monster_views(old(monsters)@), old(rng).state, pos, kinds@, count as int)
                == pack(monster_views(old(monsters)@), old(rng).state, pos, kinds@, 0));
        }
    }
}

/// The views of a list of monsters with one more monster at its end.
pub proof fn lemma_views_pushed(monsters: Seq<MonsterObj>, m: MonsterObj)
    ensures
        monster_views(monsters.push(m)) == monster_views(monsters).push(m@),
{
    assert(monster_views(monsters.push(m)) =~= monster_views(monsters).push(m@));
}

/// One more monster of a pack: its kind is drawn, and it is spawned.
pub proof fn lemma_pack_step(
    monsters: Seq<MonsterView>,
    state: u64,
    pos: Vec2,
    kinds: Seq<MonsterKind>,
    n: int,
)
    requires
        n >= 0,
    ensures
        pack(monsters, state, pos, kinds, n + 1) == (
            pack(monsters, state, pos, kinds, n).0.push(
                spawned(
                    kinds[drawn_index(
                        kinds.len() as int,
                        pack(monsters, state, pos, kinds, n).1,
                    )],
                    pos,
                    next_state(pack(monsters, state, pos, kinds, n).1),
                ).0,
            ),
            spawned(
                kinds[drawn_index(kinds.len() as int, pack(monsters, state, pos, kinds, n).1)],
                pos,
                next_state(pack(monsters, state, pos, kinds, n).1),
            ).1,
        ),
{
}

/// The monsters and the state of the generator after the rooms at the
/// first `n` of `sites` have been stocked: the room in which the players
/// enter at `spawn` is left empty; for every other room a tile inside it is
/// drawn, then a number of monsters below `MONSTERS_PER_ROOM`, and that many
/// monsters are spawned on the corner of the tile.
pub open spec fn stocked_sites(
    monsters: Seq<MonsterView>,
    state: u64,
    sites: Seq<RoomSite>,
    spawn: Vec2,
    kinds: Seq<MonsterKind>,
    n: int,
) -> (Seq<MonsterView>, u64)
    decreases n,
{
    if n <= 0 || n > sites.len() {
        (monsters, state)
    } else {
        let (before, state1) = stocked_sites(monsters, state, sites, spawn, kinds, n - 1);
        if sites[n - 1].inside(tile_of(spawn)) {
            (before, state1)
        } else {
            let tile = drawn_in(sites[n - 1], state1);
            let state2 = next_state(next_state(state1));
            let count = scale_to_range(0, MONSTERS_PER_ROOM as int, output(state2));
            pack(before, next_state(state2), tile_corner(tile), kinds, count)
        }
    }
}

/// The kinds of monsters that a level is stocked with.
pub open spec fn level_kinds() -> Seq<MonsterKind> {
    seq![MonsterKind::SmallRat, MonsterKind::GreenSlime]
}

/// The kinds of items that are found on a level.
pub open spec fn level_items() -> Seq<ItemType> {
    seq![ItemType::Gold(20), ItemType::Potion(crate::items::PotionType::Regeneration)]
}

/// The middle tile of a room at `site`.
pub open spec fn site_middle(site: RoomSite) -> IVec2 {
    IVec2 {
        x: crate::math::div_trunc(site.top_left.x + site.bottom_right.x, 2) as i32,
        y: crate::math::div_trunc(site.top_left.y + site.bottom_right.y, 2) as i32,
    }
}

/// Where the players enter a level with rooms at `sites`: on the corner of
/// the middle tile of the room that a draw in `state` selects.
pub open spec fn drawn_spawn(sites: Seq<RoomSite>, state: u64) -> Vec2 {
    tile_corner(site_middle(sites[drawn_index(sites.len() as int, state)]))
}

/// Whether `info` is the level that is put together from `sites` and
/// `hallways` with the draws from `state` on. Its rooms stand, in order, on
/// the sites that a hallway reaches, with a door wherever a hallway meets
/// the wall off the corners, the doors in the order of the wall tiles. The tiles are laid out for these rooms and for
/// the hallway tiles that are inside no room, and every tile inside a room
/// is as it is drawn when the floors of the rooms are drawn one after the
/// other. Then the room where the players enter is drawn, then the room of
/// the exit, and then the rooms are stocked with monsters.
#[verifier::opaque]
pub open spec fn assembled(
    info: FloorInfo,
    sites: Seq<RoomSite>,
    hallways: Seq<IVec2>,
    state: u64,
) -> bool {
    let rooms = info.rooms@;
    let begun = rooms_rolled(rooms, state, rooms.len() as int);
    &&& room_sites(rooms) == kept_sites(sites, hallways, sites.len() as int)
    &&& forall|k: int|
        0 <= k < rooms.len() ==> crate::generation::doors_from(#[trigger] rooms[k], hallways)
            && rooms[k].doors@ == crate::generation::site_doors(site_of(rooms[k]), hallways)
    &&& exists|kept: Seq<IVec2>|
        (forall|p: IVec2| kept.contains(p) <==> (hallways.contains(p) && !inside_any(rooms, p)))
            && #[trigger] laid_out(info.floor, rooms, kept)
    &&& insides_rolled(info.floor.objects@, rooms, state)
    &&& info.spawn == drawn_spawn(room_sites(rooms), begun)
    &&& info.exit.pos == site_middle(
        room_sites(rooms)[drawn_index(rooms.len() as int, next_state(begun))],
    )
    &&& info.exit.is_floor
    &&& crate::generation::is_bare(info.exit)
    &&& info.monster_types@ == level_kinds()
    &&& info.item_types@ == level_items()
    &&& monster_views(info.monsters@) == stocked_sites(
        Seq::empty(),
        next_state(next_state(begun)),
        room_sites(rooms),
        info.spawn,
        level_kinds(),
        rooms.len() as int,
    ).0
}

/// The state of the generator once a level has been put together from
/// `sites` and `hallways` with the draws from `state` on.
pub open spec fn assembled_end(sites: Seq<RoomSite>, hallways: Seq<IVec2>, state: u64) -> u64 {
    let kept = kept_sites(sites, hallways, sites.len() as int);
    let begun = sites_rolled(kept, state, kept.len() as int);
    stocked_sites(
        Seq::empty(),
        next_state(next_state(begun)),
        kept,
        drawn_spawn(kept, begun),
        level_kinds(),
        kept.len() as int,
    ).1
}

/// The state of the generator once the level that is generated from
/// `state` on is done.
#[verifier::opaque]
pub open spec fn level_end(state: u64) -> u64 {
    assembled_end(
        crate::generation::planned_sites(state),
        crate::generation::planned_hallways(state),
        crate::generation::plan_end(state),
    )
}

/// The state of the generator when the `k`-th floor of a dungeon is begun,
/// the floors being generated one after the other from `state` on.
pub open spec fn floor_start(state: u64, k: int) -> u64
    decreases k,
{
    if k <= 0 {
        state
    } else {
        level_end(floor_start(state, k - 1))
    }
}

/// Whether every one of the first `n` floors of a dungeon that is generated
/// from `state` on has a room that a hallway reaches.
pub open spec fn floors_have_rooms(state: u64, n: int) -> bool {
    forall|k: int|
        0 <= k < n ==> crate::generation::plan_has_room(#[trigger] floor_start(state, k))
}

impl FloorInfo {
    /// What holds of a floor that has just been generated. The tile array
    /// is dense. There is at least one room; the rooms are of valid size and
    /// apart from each other, and each has a door. The tiles agree with the
    /// rooms and with some set of hallway tiles, none of which touches the
    /// border of the map. Players enter on the corner of the middle tile of
    /// one room and leave by the middle tile of a room. Every monster is
    /// alive and stands on the corner of a tile that is strictly inside a
    /// room other than the one in which the players enter.
    pub open spec fn fresh(&self) -> bool {
        &&& self.floor.wf()
        &&& self.rooms@.len() > 0
        &&& rooms_apart(self.rooms@)
        &&& forall|k: int| 0 <= k < self.rooms@.len() ==> (#[trigger] self.rooms@[k]).doors@.len() > 0
        &&& exists|hallways: Seq<IVec2>|
            crate::generation::off_border(hallways) && #[trigger] laid_out(
                self.floor,
                self.rooms@,
                hallways,
            )
        &&& exists|k: int|
            0 <= k < self.rooms@.len() && self.spawn == tile_corner(
                (#[trigger] self.rooms@[k]).center_spec(),
            )
        &&& exists|k: int|
            0 <= k < self.rooms@.len() && self.exit.pos == (#[trigger] self.rooms@[k]).center_spec()
        &&& self.exit.is_floor
        &&& forall|m: int|
            0 <= m < self.monsters@.len() ==> stocked(
                self.rooms@,
                self.spawn,
                (#[trigger] self.monsters@[m])@,
            )
    }

    /// Puts between zero and five monsters into every room but the one in
    /// which the players enter: for each room a tile inside it is drawn,
    /// then the number of monsters, and then the kind of each.
    pub fn spawn_monsters(&mut self, rng: &mut Rng)
        requires
            rooms_apart(old(self).rooms@),
            old(self).monster_types@.len() > 0,
            forall|m: int|
                0 <= m < old(self).monsters@.len() ==> stocked(
                    old(self).rooms@,
                    old(self).spawn,
                    (#[trigger] old(self).monsters@[m])@,
                ),
        ensures
            old(self).same_but_monsters(*final(self)),
            forall|m: int|
                0 <= m < final(self).monsters@.len() ==> stocked(
                    final(self).rooms@,
                    final(self).spawn,
                    (#[trigger] final(self).monsters@[m])@,
                ),
            (monster_views(final(self).monsters@), final(rng).state) == stocked_sites(
                monster_views(old(self).monsters@),
                old(rng).state,
                room_sites(old(self).rooms@),
                old(self).spawn,
                old(self).monster_types@,
                old(self).rooms@.len() as int,
            ),
    {
        // Choose every room that doesn't contain the spawn point
        let spawn_tile = world_to_tile(self.spawn);
        let mut r: usize = 0;
        while r < self.rooms.len()
            invariant
                r <= self.rooms@.len(),
                rooms_apart(self.rooms@),
                self.monster_types@.len() > 0,
                spawn_tile == tile_of(self.spawn),
                old(self).same_but_monsters(*self),
                (monster_views(self.monsters@), rng.state) == stocked_sites(
                    monster_views(old(self).monsters@),
                    old(rng).state,
                    room_sites(self.rooms@),
                    self.spawn,
                    self.monster_types@,
                    r as int,
                ),
                forall|m: int|
                    0 <= m < self.monsters@.len() ==> stocked(
                        self.rooms@,
                        self.spawn,
                        (#[trigger] self.monsters@[m])@,
                    ),
            decreases self.rooms@.len() - r,
        {
            assert(room_sites(self.rooms@)[r as int] == site_of(self.rooms@[r as int]));
            if !self.rooms[r].inside_room(spawn_tile) {
                // Pick a random position in each room to spawn from 0 to 5 monsters
                assert(site_of(self.rooms@[r as int]).valid());
                let tile_pos = draw_tile(&self.rooms[r], rng);
                let pos = tile_to_world(tile_pos);
                let count = rng.gen_range(0, MONSTERS_PER_ROOM);
                let ghost found = self.monsters@;
                spawn_pack(&mut self.monsters, &self.monster_types, pos, count, rng);
                proof {
                    assert forall|m: int| 0 <= m < self.monsters@.len() implies stocked(
                        self.rooms@,
                        self.spawn,
                        (#[trigger] self.monsters@[m])@,
                    ) by {
                        if m < found.len() {
                            assert(self.monsters@[m] == found[m]);
                        } else {
                            lemma_stocked(
                                self.rooms@,
                                self.spawn,
                                self.monsters@[m]@,
                                r as int,
                                tile_pos,
                            );
                        }
                    }
                }
            }
            r = r + 1;
        }
    }

    /// Puts a level together from the places of its rooms and the tiles of
    /// its hallways: rooms that no hallway reaches are left out, the tiles
    /// are laid, the way in and the way out are drawn among the rooms, and
    /// the rooms are stocked with monsters. A level without any room is
    /// refused.
    pub fn assemble(sites: &Vec<crate::generation::RoomSite>, hallways: &Vec<IVec2>, rng: &mut Rng) -> (r:
        Result<FloorInfo, GenerationError>)
        requires
            crate::generation::sites_apart(sites@),
            crate::generation::off_border(hallways@),
        ensures
            r is Err <==> forall|k: int|
                0 <= k < sites@.len() ==> !crate::generation::site_has_door(
                    #[trigger] sites@[k],
                    hallways@,
                ),
            r matches Ok(info) ==> info.fresh() && assembled(
                info,
                sites@,
                hallways@,
                old(rng).state,
            ) && final(rng).state == assembled_end(sites@, hallways@, old(rng).state),
            r is Err ==> *final(rng) == *old(rng),
    {
        // Only keep rooms that have a door
        let rooms = make_rooms(sites, hallways);
        if rooms.len() == 0 {
            return Err(GenerationError::NoRooms);
        }
        let ghost carved = hallways@;
        // Remove all "hallway" positions inside of a room
        let hallways = prune_hallways(hallways, &rooms);
        let floor = build_floor(&rooms, &hallways, rng);
        let ghost begun = rng.state;
        let spawn_room = draw_index(rooms.len(), rng).unwrap();
        let spawn = tile_to_world(rooms[spawn_room].center());
        let exit_room = draw_index(rooms.len(), rng).unwrap();
        let exit_pos = rooms[exit_room].center();
        let mut monster_types: Vec<MonsterKind> = Vec::new();
        monster_types.push(MonsterKind::SmallRat);
        monster_types.push(MonsterKind::GreenSlime);
        let mut item_types: Vec<ItemType> = Vec::new();
        item_types.push(ItemType::Gold(20));
        item_types.push(ItemType::Potion(crate::items::PotionType::Regeneration));
        let mut floor_info = FloorInfo {
            monster_types,
            item_types,
            spawn,
            floor,
            rooms,
            exit: Object::floor(exit_pos),
            monsters: Vec::new(),
        };
        let ghost laid = hallways@;
        proof {
            assert(floor_info.monster_types@ =~= level_kinds());
            assert(floor_info.item_types@ =~= level_items());
            assert(monster_views(floor_info.monsters@) =~= Seq::<MonsterView>::empty());
            assert(room_sites(floor_info.rooms@)[spawn_room as int] == site_of(
                floor_info.rooms@[spawn_room as int],
            ));
            assert(room_sites(floor_info.rooms@)[exit_room as int] == site_of(
                floor_info.rooms@[exit_room as int],
            ));
        }
        assert(laid_out(floor_info.floor, floor_info.rooms@, laid));
        floor_info.spawn_monsters(rng);
        assert(laid_out(floor_info.floor, floor_info.rooms@, laid));
        assert(floor_info.spawn == tile_corner(floor_info.rooms@[spawn_room as int].center_spec()));
        assert(floor_info.exit.pos == floor_info.rooms@[exit_room as int].center_spec());
        assert(assembled(floor_info, sites@, carved, old(rng).state)) by {
            reveal(assembled);
        }
        Ok(floor_info)
    }

    /// Generates a level: rooms are placed at random and put in a random
    /// order, hallways are carved between them, and the level is put
    /// together from these. A level none of whose rooms is reached by a
    /// hallway is refused.
    pub fn new(_floor_num: usize, rng: &mut Rng) -> (r: Result<FloorInfo, GenerationError>)
        ensures
            r is Ok <==> crate::generation::plan_has_room(old(rng).state),
            r matches Ok(info) ==> info.fresh() && assembled(
                info,
                crate::generation::planned_sites(old(rng).state),
                crate::generation::planned_hallways(old(rng).state),
                crate::generation::plan_end(old(rng).state),
            ) && final(rng).state == level_end(old(rng).state),
    {
        reveal(crate::generation::plan_has_room);
        reveal(level_end);
        let (sites, hallways) = crate::generation::plan_level(rng);
        FloorInfo::assemble(&sites, &hallways, rng)
    }
}

/// How many floors a dungeon has.
pub const FLOORS: usize = 5;

/// The dungeon: its floors, and which of them the party is on.
#[derive(Clone, Debug)]
pub struct DungeonMap {
    pub current_floor_index: usize,
    pub rooms: Vec<FloorInfo>,
}

impl DungeonMap {
    /// The party is on one of the floors, and every floor has a dense tile
    /// array and well formed rooms.
    pub open spec fn wf(&self) -> bool {
        &&& self.current_floor_index < self.rooms@.len()
        &&& forall|k: int|
            0 <= k < self.rooms@.len() ==> (#[trigger] self.rooms@[k]).floor.wf() && forall|j: int|
                0 <= j < self.rooms@[k].rooms@.len() ==> (#[trigger] self.rooms@[k].rooms@[j]).wf()
    }

    /// Generates a dungeon of `FLOORS` floors, with the party on the
    /// first. If one floor cannot be generated, none is.
    pub fn new(rng: &mut Rng) -> (r: Result<DungeonMap, GenerationError>)
        ensures
            r is Ok <==> floors_have_rooms(old(rng).state, FLOORS as int),
            r matches Ok(map) ==> map.wf() && map.current_floor_index == 0 && map.rooms@.len()
                == FLOORS && final(rng).state == floor_start(old(rng).state, FLOORS as int)
                && forall|k: int|
                0 <= k < map.rooms@.len() ==> (#[trigger] map.rooms@[k]).fresh() && assembled(
                    map.rooms@[k],
                    crate::generation::planned_sites(floor_start(old(rng).state, k)),
                    crate::generation::planned_hallways(floor_start(old(rng).state, k)),
                    crate::generation::plan_end(floor_start(old(rng).state, k)),
                ),
    {
        let mut floors: Vec<FloorInfo> = Vec::new();
        let mut floor_num: usize = 0;
        while floor_num < FLOORS
            invariant
                floor_num <= FLOORS,
                floors@.len() == floor_num,
                rng.state == floor_start(old(rng).state, floor_num as int),
                floors_have_rooms(old(rng).state, floor_num as int),
                forall|k: int|
                    0 <= k < floors@.len() ==> (#[trigger] floors@[k]).fresh() && assembled(
                        floors@[k],
                        crate::generation::planned_sites(floor_start(old(rng).state, k)),
                        crate::generation::planned_hallways(floor_start(old(rng).state, k)),
                        crate::generation::plan_end(floor_start(old(rng).state, k)),
                    ),
            decreases FLOORS - floor_num,
        {
            match FloorInfo::new(floor_num, rng) {
                Ok(info) => {
                    floors.push(info);
                },
                Err(e) => {
                    assert(!crate::generation::plan_has_room(
                        floor_start(old(rng).state, floor_num as int),
                    ));
                    return Err(e);
                },
            }
            floor_num = floor_num + 1;
        }
        Ok(DungeonMap { current_floor_index: 0, rooms: floors })
    }

    pub fn current_floor(&self) -> (floor: &FloorInfo)
        requires
            self.current_floor_index < self.rooms@.len(),
        ensures
            *floor == self.rooms@[self.current_floor_index as int],
    {
        &self.rooms[self.current_floor_index]
    }

    pub fn current_floor_mut(&mut self) -> (floor: &mut FloorInfo)
        requires
            old(self).current_floor_index < old(self).rooms@.len(),
        ensures
            *floor == old(self).rooms@[old(self).current_floor_index as int],
            final(self).current_floor_index == old(self).current_floor_index,
            final(self).rooms@ == old(self).rooms@.update(
                old(self).current_floor_index as int,
                *final(floor),
            ),
    {
        &mut self.rooms[self.current_floor_index]
    }

    /// Takes the party down one floor and puts every player where that
    /// floor is entered. On the last floor nothing happens.
    pub fn descend(&mut self, players: &mut Vec<Player>)
        requires
            old(self).current_floor_index < old(self).rooms@.len(),
        ensures
            final(self).rooms == old(self).rooms,
            final(players)@.len() == old(players)@.len(),
            old(self).current_floor_index + 1 < old(self).rooms@.len() ==> final(self).current_floor_index == old(self).current_floor_index + 1 && forall|i: int|
                0 <= i < old(players)@.len() ==> #[trigger] final(players)@[i] == (Player {
                    pos: old(self).rooms@[old(self).current_floor_index + 1].spawn,
                    ..old(players)@[i]
                }),
            old(self).current_floor_index + 1 >= old(self).rooms@.len() ==> final(self).current_floor_index == old(self).current_floor_index && *final(players) == *old(players),
    {
        if self.current_floor_index >= self.rooms.len() - 1 {
            return ;
        }
        self.current_floor_index = self.current_floor_index + 1;
        let spawn = self.rooms[self.current_floor_index].spawn;
        let mut i: usize = 0;
        while i < players.len()
            invariant
                i <= players@.len(),
                players@.len() == old(players)@.len(),
                forall|j: int|
                    0 <= j < i ==> #[trigger] players@[j] == (Player { pos: spawn, ..old(players)@[j] }),
                forall|j: int| i <= j < players@.len() ==> players@[j] == old(players)@[j],
            decreases players@.len() - i,
        {
            players[i].pos = spawn;
            i = i + 1;
        }
    }
}

} // verus!
