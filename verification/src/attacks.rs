//! The attacks: what each does in a frame, and when it is over.

use vstd::prelude::*;
use vstd::arithmetic::power::pow;
use crate::enchantments::{Enchantable, Enchantment, EnchantmentKind};
use crate::items::{ItemInfo, ItemType};
use crate::map::{in_bounds, index_of, tile_index, tile_of, world_to_tile, Floor, FloorInfo, Object, lemma_index_round_trip};
use crate::math::{
    aabb_collision, easy_polygon, easy_polygon_spec, get_angle, normalized, polygons_collide, Angle,
    AsPolygon, IVec2, Polygon, Vec2,
};
use crate::monsters::{
    angle_between, lemma_angle_between, monster_damaged, monster_damaged_by, monster_enchanted,
    monster_polygon, monster_pos, monster_views, MonsterObj, MonsterView,
};
use crate::player::{
    damage_player, damaged_player, moved_player, move_player, DamageInfo, Player, PLAYER_SIZE,
};
use crate::rng::{next_state, output, scale_to_range, Rng};

verus! {

/// The place of the first monster, at or after `from`, that `poly` touches.
pub open spec fn first_hit(monsters: Seq<MonsterView>, poly: Polygon, from: int) -> Option<int>
    decreases monsters.len() - from,
{
    if from < 0 || from >= monsters.len() {
        None
    } else if poly.collides(monster_polygon(monsters[from]), 0, 0) {
        Some(from)
    } else {
        first_hit(monsters, poly, from + 1)
    }
}

/// The first monster that `poly` touches.
pub fn find_hit(monsters: &Vec<MonsterObj>, poly: &Polygon) -> (r: Option<usize>)
    ensures
        match r {
            Some(k) => Some(k as int),
            None => None,
        } == first_hit(monster_views(monsters@), *poly, 0),
        r matches Some(k) ==> k < monsters@.len(),
{
    let mut k: usize = 0;
    while k < monsters.len()
        invariant
            k <= monsters@.len(),
            first_hit(monster_views(monsters@), *poly, 0) == first_hit(
                monster_views(monsters@),
                *poly,
                k as int,
            ),
        decreases monsters@.len() - k,
    {
        let shape = monsters[k].as_polygon();
        if polygons_collide(poly, &shape, Vec2 { x: 0, y: 0 }) {
            return Some(k);
        }
        k = k + 1;
    }
    None
}

/// The monsters after the one at place `k` is hit for `damage` by an attack
/// at `from` that `player` made.
pub open spec fn with_hit(
    monsters: Seq<MonsterView>,
    k: int,
    damage: u16,
    from: Vec2,
    player: usize,
    floor: &Floor,
) -> Seq<MonsterView> {
    monsters.update(
        k,
        monster_damaged(
            monsters[k],
            damage,
            angle_between(monster_pos(monsters[k]), from),
            player,
            floor,
        ),
    )
}

/// Hits the monster at place `k` for `damage` by an attack at `from` that
/// `player` made.
pub fn hit_monster(floor_info: &mut FloorInfo, k: usize, damage: u16, from: Vec2, player: usize)
    requires
        k < old(floor_info).monsters@.len(),
    ensures
        old(floor_info).same_but_monsters(*final(floor_info)),
        monster_views(final(floor_info).monsters@) == with_hit(
            monster_views(old(floor_info).monsters@),
            k as int,
            damage,
            from,
            player,
            &old(floor_info).floor,
        ),
{
    let direction = get_angle(floor_info.monsters[k].pos(), from);
    proof {
        lemma_angle_between(monster_pos(floor_info.monsters@[k as int]@), from, direction);
    }
    let damage_info = DamageInfo { damage, direction, player };
    floor_info.monsters[k].take_damage(damage_info, &floor_info.floor);
    assert(monster_views(floor_info.monsters@) =~= with_hit(
        monster_views(old(floor_info).monsters@),
        k as int,
        damage,
        from,
        player,
        &old(floor_info).floor,
    ));
}

/// The monsters after those that `poly` touches are hit for `damage` by an
/// attack at `from` that `player` made, in their order and as long as fewer
/// than `limit` have been hit.
pub open spec fn with_hits(
    monsters: Seq<MonsterView>,
    poly: Polygon,
    damage: u16,
    from: Vec2,
    player: usize,
    floor: &Floor,
    limit: int,
) -> Seq<MonsterView> {
    Seq::new(
        monsters.len(),
        |k: int|
            if poly.collides(monster_polygon(monsters[k]), 0, 0) && count_hits(monsters, poly, k)
                < limit {
                monster_damaged(
                    monsters[k],
                    damage,
                    angle_between(monster_pos(monsters[k]), from),
                    player,
                    floor,
                )
            } else {
                monsters[k]
            },
    )
}

/// How many monsters are hit where `poly` touches `touched` of them and at
/// most `limit` may be hit.
pub open spec fn hits_made(touched: nat, limit: int) -> nat {
    if limit <= 0 {
        0
    } else if touched <= limit {
        touched
    } else {
        limit as nat
    }
}

/// How many of the first `n` monsters `poly` touches.
pub open spec fn count_hits(monsters: Seq<MonsterView>, poly: Polygon, n: int) -> nat
    decreases n,
{
    if n <= 0 || n > monsters.len() {
        0
    } else {
        count_hits(monsters, poly, n - 1) + if poly.collides(monster_polygon(monsters[n - 1]), 0, 0) {
            1nat
        } else {
            0nat
        }
    }
}

/// The monsters after every one that `poly` touches has `enchantment` put
/// on it.
pub open spec fn with_enchantment(
    monsters: Seq<MonsterView>,
    poly: Polygon,
    enchantment: Enchantment,
) -> Seq<MonsterView> {
    Seq::new(
        monsters.len(),
        |k: int|
            if poly.collides(monster_polygon(monsters[k]), 0, 0) {
                monster_enchanted(monsters[k], enchantment)
            } else {
                monsters[k]
            },
    )
}

/// What an attack has to offer to the simulation.
pub trait Attack: Sized {
    /// Whether an attack of this kind has to be made by a player.
    spec fn needs_owner() -> bool;

    /// Just gives some information about the attack
    fn new<A: AsPolygon>(
        player: &A,
        player_index: Option<usize>,
        angle: Angle,
        floor: &Floor,
        is_primary: bool,
    ) -> Self
        requires
            Self::needs_owner() ==> player_index is Some,
    ;

    /// If the attack has any side effects on the user, do them here
    fn side_effects(&self, player: &mut Player, floor: &Floor);

    fn mana_cost(&self) -> u16;

    /// Returns whether or not the attack should be destroyed
    fn update(&mut self, floor: &mut FloorInfo, players: &mut Vec<Player>, rng: &mut Rng) -> bool
        requires
            old(floor).floor.wf(),
    ;

    fn cooldown(&self) -> u16;

    fn as_polygon_optional(&self) -> Option<Polygon>;
}

// ---------------------------------------------------------------- Stab

/// Frames after which a stab is over.
pub const STAB_LIFETIME: u16 = 6;

pub const STAB_DAMAGE: u16 = 25;

/// How far a stab moves in a frame, in fixed-point units.
pub const STAB_SPEED: i32 = 6000;

#[derive(Clone, Copy, Debug, PartialEq, Eq, Structural)]
pub struct Stab {
    pub pos: Vec2,
    pub angle: Angle,
    pub time: u16,
    pub player_index: usize,
    pub num_piercings: u8,
}

/// The rectangle of the given half extents whose top left corner, before
/// it is turned, is at `pos`.
pub open spec fn box_at(pos: Vec2, half_x: int, half_y: int, rotation: Angle) -> Polygon {
    easy_polygon_spec(
        pos.moved(half_x, half_y),
        Vec2 { x: half_x as i32, y: half_y as i32 },
        rotation,
    )
}

/// `v + 1`, stopping at the end of the `u16` range.
pub open spec fn next_time(v: u16) -> u16 {
    if v == u16::MAX {
        v
    } else {
        (v + 1) as u16
    }
}

/// The step of one frame of an attack at `pos` along `angle`.
pub open spec fn advanced(pos: Vec2, angle: Angle, speed: int) -> Vec2 {
    pos.moved(angle.step_spec(speed).x as int, angle.step_spec(speed).y as int)
}

impl Stab {
    /// The stab after one frame: it has moved on and is a frame older.
    pub open spec fn stepped(self) -> Stab {
        Stab {
            pos: advanced(self.pos, self.angle, STAB_SPEED as int),
            time: next_time(self.time),
            ..self
        }
    }

    /// Whether a wall or a closed door is in the way of the stab's step.
    pub open spec fn hits_wall(self, floor: &Floor) -> bool {
        floor.blocked(
            self.polygon(),
            self.angle.step_spec(STAB_SPEED as int).x as int,
            self.angle.step_spec(STAB_SPEED as int).y as int,
        )
    }

    /// The monster that the stab hits in this frame: the first one that it
    /// touches where it has moved to, unless its time is up.
    pub open spec fn victim(self, monsters: Seq<MonsterView>) -> Option<int> {
        if self.stepped().time >= STAB_LIFETIME {
            None
        } else {
            first_hit(monsters, self.stepped().polygon(), 0)
        }
    }

    /// Whether the stab is over after this frame: its time is up, it has
    /// run into a wall, or it has hit a monster.
    pub open spec fn done(self, floor: &Floor, monsters: Seq<MonsterView>) -> bool {
        self.stepped().time >= STAB_LIFETIME || self.hits_wall(floor) || self.victim(monsters) is Some
    }

    /// Whether one frame leads from `self` on `floor` to `after` on
    /// `floor_after`, and whether the stab is `done` then: the stab moves on;
    /// the first monster that it touches, if its time is not up, takes
    /// `STAB_DAMAGE`, also in the frame in which the stab runs into a wall;
    /// and nothing else changes.
    pub open spec fn updated(self, after: Stab, floor: FloorInfo, floor_after: FloorInfo, done: bool) -> bool {
        &&& after == self.stepped()
        &&& done == self.done(&floor.floor, monster_views(floor.monsters@))
        &&& floor.same_but_monsters(floor_after)
        &&& monster_views(floor_after.monsters@) == (match self.victim(
            monster_views(floor.monsters@),
        ) {
            Some(k) => with_hit(
                monster_views(floor.monsters@),
                k,
                STAB_DAMAGE,
                self.stepped().pos,
                self.player_index,
                &floor.floor,
            ),
            None => monster_views(floor.monsters@),
        })
    }
}

impl AsPolygon for Stab {
    open spec fn polygon(&self) -> Polygon {
        box_at(self.pos, 7500, 2500, self.angle)
    }

    fn as_polygon(&self) -> (p: Polygon) {
        let half = Vec2 { x: 7500, y: 2500 };
        easy_polygon(self.pos.plus(half), half, self.angle)
    }
}

impl Attack for Stab {
    open spec fn needs_owner() -> bool {
        true
    }

    fn new<A: AsPolygon>(
        aabb: &A,
        index: Option<usize>,
        angle: Angle,
        _floor: &Floor,
        _is_primary: bool,
    ) -> (stab: Stab)
        ensures
            stab == (Stab {
                pos: aabb.polygon().center,
                angle,
                time: 0,
                player_index: index->0,
                num_piercings: 0,
            }),
    {
        Stab { pos: aabb.center(), angle, time: 0, player_index: index.unwrap(), num_piercings: 0 }
    }

    /// The player lunges forward by its own length, unless something is in
    /// the way.
    fn side_effects(&self, player: &mut Player, floor: &Floor)
        ensures
            *final(player) == lunged(*old(player), self.angle.step_spec(PLAYER_SIZE as int), floor),
    {
        let change = self.angle.step(PLAYER_SIZE);
        if !floor.collision(player, change) {
            player.pos = player.pos.plus(change);
        }
    }

    fn update(&mut self, floor_info: &mut FloorInfo, _players: &mut Vec<Player>, rng: &mut Rng) -> (done:
        bool)
        ensures
            old(self).updated(*final(self), *old(floor_info), *final(floor_info), done),
            old(self).time >= STAB_LIFETIME - 1 ==> done,
            *final(_players) == *old(_players),
            *final(rng) == *old(rng),
    {
        let movement = self.angle.step(STAB_SPEED);
        let at_wall = floor_info.floor.collision(self, movement);
        self.pos = self.pos.plus(movement);
        self.time = self.time.saturating_add(1);
        if self.time >= STAB_LIFETIME {
            return true;
        }
        let aabb = self.as_polygon();
        // Check to see if it's collided with a monster
        match find_hit(&floor_info.monsters, &aabb) {
            Some(k) => {
                hit_monster(floor_info, k, STAB_DAMAGE, self.pos, self.player_index);
                true
            },
            None => at_wall,
        }
    }

    fn cooldown(&self) -> (frames: u16)
        ensures
            frames == 50,
    {
        50
    }

    fn mana_cost(&self) -> (points: u16)
        ensures
            points == 0,
    {
        0
    }

    fn as_polygon_optional(&self) -> (p: Option<Polygon>)
        ensures
            p is None,
    {
        None
    }
}

/// The player moved by `change`, unless something is in the way.
pub open spec fn lunged(player: Player, change: Vec2, floor: &Floor) -> Player {
    if floor.blocked(player.polygon(), change.x as int, change.y as int) {
        player
    } else {
        Player { pos: player.pos.moved(change.x as int, change.y as int), ..player }
    }
}

// ---------------------------------------------------------------- Slash

/// Frames after which a slash is over.
pub const SWING_TIME: u16 = 10;

pub const SLASH_DAMAGE: u16 = 4;

/// How far from the player's center the blade is, in fixed-point units.
pub const SLASH_REACH: i32 = 24000;

#[derive(Clone, Copy, Debug, PartialEq, Eq, Structural)]
pub struct Slash {
    pub pos: Vec2,
    pub angle: Angle,
    pub time: u16,
    pub player_index: usize,
    pub num_piercings: u8,
}

/// The angle by which a slash starts ahead of the player's aim: a third of
/// a half turn.
pub open spec fn slash_lead() -> (int, int) {
    (50904, 86074)
}

/// The angle by which the blade swings back in a frame: a fifth of a
/// radian.
pub open spec fn slash_swing() -> (int, int) {
    (98007, -19867)
}

/// The direction `angle` turned by the direction `by`.
pub open spec fn turned(angle: Angle, by: (int, int)) -> (int, int) {
    normalized(
        angle.cos_spec() * normalized(by.0, by.1).0 - angle.sin_spec() * normalized(by.0, by.1).1,
        angle.sin_spec() * normalized(by.0, by.1).0 + angle.cos_spec() * normalized(by.0, by.1).1,
    )
}

/// `v` and `n` added, stopping at the end of the `u8` range.
pub open spec fn add_u8(v: u8, n: nat) -> u8 {
    if v + n > u8::MAX {
        u8::MAX
    } else {
        (v + n) as u8
    }
}

/// How many hits a slash makes at most over its life.
pub const PIERCE_CAP: u8 = 8;

impl Slash {
    /// Whether the time of the slash is up in this frame, or the player who
    /// swings it is not there.
    pub open spec fn spent(self, players: Seq<Player>) -> bool {
        next_time(self.time) >= SWING_TIME || self.player_index >= players.len()
    }

    /// The slash one frame on, before its hits are counted: the blade has
    /// swung back and stands at its reach from the player's center.
    pub open spec fn blade(self, players: Seq<Player>) -> Slash {
        let angle = Angle::from_parts(
            turned(self.angle, slash_swing()).0,
            turned(self.angle, slash_swing()).1,
        );
        Slash {
            angle,
            pos: advanced(
                players[self.player_index as int].polygon().center,
                angle,
                SLASH_REACH as int,
            ),
            time: next_time(self.time),
            ..self
        }
    }

    /// Whether the blade, where it swings to, stands in a wall or a closed
    /// door.
    pub open spec fn hits_wall(self, players: Seq<Player>, floor: &Floor) -> bool {
        floor.blocked(self.blade(players).polygon(), 0, 0)
    }

    /// Whether the slash is over in this frame: its time is up, the player
    /// who swings it is not there, or the blade has met a wall.
    pub open spec fn done(self, players: Seq<Player>, floor: &Floor) -> bool {
        self.spent(players) || self.hits_wall(players, floor)
    }

    /// How many hits the slash may still make.
    pub open spec fn hits_left(self) -> int {
        if self.num_piercings >= PIERCE_CAP {
            0
        } else {
            PIERCE_CAP - self.num_piercings
        }
    }

    /// Whether one frame leads from `self` on `floor` to `after` on
    /// `floor_after`, and whether the slash is `done` then. A slash whose
    /// time is up only grows a frame older. Any other swings on: the monsters
    /// that the blade touches take `SLASH_DAMAGE` each, in their order and as
    /// long as the slash has hits left, and the hits are counted. If the
    /// blade has met a wall, the slash is over after that.
    pub open spec fn updated(
        self,
        after: Slash,
        floor: FloorInfo,
        floor_after: FloorInfo,
        players: Seq<Player>,
        done: bool,
    ) -> bool {
        let blade = self.blade(players);
        let monsters = monster_views(floor.monsters@);
        &&& done == self.done(players, &floor.floor)
        &&& self.spent(players) ==> after == (Slash { time: next_time(self.time), ..self })
            && floor_after == floor
        &&& !self.spent(players) ==> after == (Slash {
            num_piercings: add_u8(
                self.num_piercings,
                hits_made(
                    count_hits(monsters, blade.polygon(), monsters.len() as int),
                    self.hits_left(),
                ),
            ),
            ..blade
        }) && floor.same_but_monsters(floor_after) && monster_views(floor_after.monsters@)
            == with_hits(
            monsters,
            blade.polygon(),
            SLASH_DAMAGE,
            blade.pos,
            self.player_index,
            &floor.floor,
            self.hits_left(),
        )
    }
}

/// A slash never makes more hits than it has left: the hits of a frame are
/// counted, the count only grows, and a count within the cap stays within
/// it. A slash whose time is up, and one without a hit left, hurts nobody.
pub proof fn lemma_slash_pierces(
    slash: Slash,
    after: Slash,
    floor: FloorInfo,
    floor_after: FloorInfo,
    players: Seq<Player>,
    done: bool,
)
    requires
        slash.updated(after, floor, floor_after, players, done),
    ensures
        after.num_piercings >= slash.num_piercings,
        slash.num_piercings <= PIERCE_CAP ==> after.num_piercings <= PIERCE_CAP,
        slash.num_piercings >= PIERCE_CAP || slash.spent(players) ==> monster_views(
            floor_after.monsters@,
        ) == monster_views(floor.monsters@),
{
    let monsters = monster_views(floor.monsters@);
    if !slash.spent(players) && slash.num_piercings >= PIERCE_CAP {
        assert(monster_views(floor_after.monsters@) =~= monsters);
    }
}

impl AsPolygon for Slash {
    open spec fn polygon(&self) -> Polygon {
        box_at(self.pos, 7500, 10000, Angle::zero_spec())
    }

    fn as_polygon(&self) -> (p: Polygon) {
        let half = Vec2 { x: 7500, y: 10000 };
        easy_polygon(self.pos.plus(half), half, Angle::zero())
    }
}

/// Hits the monsters that `poly` touches for `damage`, in their order and
/// at most `limit` of them, and tells how many were hit.
pub fn hit_monsters(
    floor_info: &mut FloorInfo,
    poly: &Polygon,
    damage: u16,
    from: Vec2,
    player: usize,
    limit: usize,
) -> (hits: usize)
    ensures
        old(floor_info).same_but_monsters(*final(floor_info)),
        monster_views(final(floor_info).monsters@) == with_hits(
            monster_views(old(floor_info).monsters@),
            *poly,
            damage,
            from,
            player,
            &old(floor_info).floor,
            limit as int,
        ),
        hits == hits_made(
            count_hits(
                monster_views(old(floor_info).monsters@),
                *poly,
                old(floor_info).monsters@.len() as int,
            ),
            limit as int,
        ),
{
    let mut hits: usize = 0;
    let mut k: usize = 0;
    let ghost before = monster_views(floor_info.monsters@);
    while k < floor_info.monsters.len()
        invariant
            k <= floor_info.monsters@.len(),
            hits <= k,
            floor_info.monsters@.len() == old(floor_info).monsters@.len(),
            old(floor_info).same_but_monsters(*floor_info),
            before == monster_views(old(floor_info).monsters@),
            hits == hits_made(count_hits(before, *poly, k as int), limit as int),
            forall|j: int|
                0 <= j < k ==> (#[trigger] floor_info.monsters@[j])@ == with_hits(
                    before,
                    *poly,
                    damage,
                    from,
                    player,
                    &old(floor_info).floor,
                    limit as int,
                )[j],
            forall|j: int|
                k <= j < floor_info.monsters@.len() ==> (#[trigger] floor_info.monsters@[j])@
                    == before[j],
        decreases floor_info.monsters@.len() - k,
    {
        let shape = floor_info.monsters[k].as_polygon();
        if polygons_collide(poly, &shape, Vec2 { x: 0, y: 0 }) && hits < limit {
            let direction = get_angle(floor_info.monsters[k].pos(), from);
            proof {
                lemma_angle_between(monster_pos(floor_info.monsters@[k as int]@), from, direction);
            }
            floor_info.monsters[k].take_damage(
                DamageInfo { damage, direction, player },
                &floor_info.floor,
            );
            hits = hits + 1;
        }
        k = k + 1;
    }
    assert(monster_views(floor_info.monsters@) =~= with_hits(
        before,
        *poly,
        damage,
        from,
        player,
        &old(floor_info).floor,
        limit as int,
    ));
    hits
}

impl Attack for Slash {
    open spec fn needs_owner() -> bool {
        true
    }

    fn new<A: AsPolygon>(
        aabb: &A,
        index: Option<usize>,
        angle: Angle,
        _floor: &Floor,
        _is_primary: bool,
    ) -> (slash: Slash)
        ensures
            slash == (Slash {
                pos: aabb.polygon().center,
                angle: Angle::from_parts(
                    turned(angle, slash_lead()).0,
                    turned(angle, slash_lead()).1,
                ),
                time: 0,
                player_index: index->0,
                num_piercings: 0,
            }),
    {
        let lead = Angle::from_vector(50904, 86074);
        Slash {
            pos: aabb.center(),
            angle: angle.rotated(&lead),
            time: 0,
            player_index: index.unwrap(),
            num_piercings: 0,
        }
    }

    fn side_effects(&self, _player: &mut Player, _floor: &Floor)
        ensures
            *final(_player) == *old(_player),
    {
    }

    fn update(&mut self, floor_info: &mut FloorInfo, players: &mut Vec<Player>, rng: &mut Rng) -> (done:
        bool)
        ensures
            old(self).updated(
                *final(self),
                *old(floor_info),
                *final(floor_info),
                old(players)@,
                done,
            ),
            old(self).time >= SWING_TIME - 1 ==> done,
            *final(players) == *old(players),
            *final(rng) == *old(rng),
    {
        self.time = self.time.saturating_add(1);
        if self.time >= SWING_TIME || self.player_index >= players.len() {
            return true;
        }
        let swing = Angle::from_vector(98007, -19867);
        self.angle = self.angle.rotated(&swing);
        proof {
            Angle::lemma_from_parts(self.angle);
        }
        let movement = self.angle.step(SLASH_REACH);
        self.pos = players[self.player_index].center().plus(movement);
        assert(*self == old(self).blade(old(players)@));
        // The blade stops at a wall
        let at_wall = floor_info.floor.collision(self, Vec2 { x: 0, y: 0 });
        let poly = self.as_polygon();
        let left: usize = if self.num_piercings >= PIERCE_CAP {
            0
        } else {
            (PIERCE_CAP - self.num_piercings) as usize
        };
        // Check to see if it's collided with a monster
        // Damage is low bc of hitting enemies multiple times
        let hits = hit_monsters(floor_info, &poly, SLASH_DAMAGE, self.pos, self.player_index, left);
        assert(hits <= 8);
        self.num_piercings = if hits >= 255 - self.num_piercings as usize {
            255
        } else {
            self.num_piercings + hits as u8
        };
        at_wall
    }

    fn cooldown(&self) -> (frames: u16)
        ensures
            frames == SWING_TIME * 3,
    {
        SWING_TIME * 3
    }

    fn mana_cost(&self) -> (points: u16)
        ensures
            points == 0,
    {
        0
    }

    fn as_polygon_optional(&self) -> (p: Option<Polygon>)
        ensures
            p is None,
    {
        None
    }
}

// ---------------------------------------------------------------- MagicMissile

/// Frames after which a magic missile is over.
pub const MISSILE_LIFETIME: u16 = 60;

/// How far a magic missile moves in a frame, in fixed-point units.
pub const MISSILE_SPEED: i32 = 5000;

/// The damage of a missile that has never bounced; each bounce multiplies
/// the damage by it once more.
pub const BASE_DAMAGE: u16 = 1;

/// How often a bounce is counted at most.
pub const MAX_BOUNCES: u16 = 3;

#[derive(Clone, Copy, Debug, PartialEq, Eq, Structural)]
pub struct MagicMissile {
    pub pos: Vec2,
    pub angle: Angle,
    pub time: u16,
    pub bounces: u16,
    pub player_index: usize,
}

/// The damage of a missile that has bounced `bounces` times: `BASE_DAMAGE`
/// to the power of one more than that, as far as the `u16` range goes.
pub open spec fn missile_damage(bounces: u16) -> int {
    if pow(BASE_DAMAGE as int, (1 + bounces) as nat) > u16::MAX {
        u16::MAX as int
    } else {
        pow(BASE_DAMAGE as int, (1 + bounces) as nat)
    }
}

/// The damage of a missile that has bounced `bounces` times.
pub fn bounce_damage(bounces: u16) -> (damage: u16)
    ensures
        damage == missile_damage(bounces),
        damage == pow(BASE_DAMAGE as int, (1 + bounces) as nat),
{
    let mut damage: u16 = 1;
    let mut i: u32 = 0;
    proof {
        vstd::arithmetic::power::lemma_pow0(BASE_DAMAGE as int);
    }
    while i < 1 + bounces as u32
        invariant
            i <= 1 + bounces,
            damage == pow(BASE_DAMAGE as int, i as nat),
            damage == 1,
        decreases 1 + bounces - i,
    {
        proof {
            vstd::arithmetic::power::lemma1_pow((i + 1) as nat);
        }
        damage = damage * BASE_DAMAGE;
        i = i + 1;
    }
    damage
}

/// The count of bounces after one more, which stops at `MAX_BOUNCES`.
pub open spec fn bounced(bounces: u16) -> u16 {
    if bounces < MAX_BOUNCES {
        (bounces + 1) as u16
    } else {
        bounces
    }
}

/// The displacement `movement` thrown back along the axes that `flip` names.
pub open spec fn reflected(movement: Vec2, flip_x: bool, flip_y: bool) -> Vec2 {
    Vec2 {
        x: if flip_x {
            crate::math::clamp_i32(-(movement.x as int)) as i32
        } else {
            movement.x
        },
        y: if flip_y {
            crate::math::clamp_i32(-(movement.y as int)) as i32
        } else {
            movement.y
        },
    }
}

/// Throws a displacement back along the axes named.
pub fn reflect(movement: Vec2, flip_x: bool, flip_y: bool) -> (r: Vec2)
    ensures
        r == reflected(movement, flip_x, flip_y),
{
    Vec2 {
        x: if flip_x {
            crate::math::saturate(-(movement.x as i64))
        } else {
            movement.x
        },
        y: if flip_y {
            crate::math::saturate(-(movement.y as i64))
        } else {
            movement.y
        },
    }
}

impl AsPolygon for MagicMissile {
    open spec fn polygon(&self) -> Polygon {
        box_at(self.pos, 7500, 7500, self.angle)
    }

    fn as_polygon(&self) -> (p: Polygon) {
        let half = Vec2 { x: 7500, y: 7500 };
        easy_polygon(self.pos.plus(half), half, self.angle)
    }
}

impl MagicMissile {
    /// The step that the missile takes in this frame after the walls have
    /// thrown it back: along each axis on which the step runs into a wall,
    /// the step is reversed.
    pub open spec fn wall_bounce(self, floor: &Floor) -> Vec2 {
        let movement = self.angle.step_spec(MISSILE_SPEED as int);
        reflected(
            movement,
            floor.blocked(self.polygon(), movement.x as int, 0),
            floor.blocked(self.polygon(), 0, movement.y as int),
        )
    }

    /// Whether the walls throw the missile back in this frame.
    pub open spec fn hits_wall(self, floor: &Floor) -> bool {
        let movement = self.angle.step_spec(MISSILE_SPEED as int);
        floor.blocked(self.polygon(), movement.x as int, 0) || floor.blocked(
            self.polygon(),
            0,
            movement.y as int,
        )
    }

    /// The missile after the walls have been met: it heads along its step,
    /// and a bounce is counted if a wall threw it back.
    pub open spec fn off_walls(self, floor: &Floor) -> MagicMissile {
        MagicMissile {
            angle: Angle::direction_of(
                self.wall_bounce(floor).x as int,
                self.wall_bounce(floor).y as int,
            ),
            bounces: if self.hits_wall(floor) {
                bounced(self.bounces)
            } else {
                self.bounces
            },
            ..self
        }
    }

    /// The missile one frame after `self`, given the monster that it
    /// touches. A missile that has bounced before is thrown back by the
    /// monster and counts one more bounce; one that has not stays where it is
    /// in this frame and ages by two frames. A missile that touches no
    /// monster flies on.
    pub open spec fn flown(self, floor: &Floor, victim: Option<int>) -> MagicMissile {
        let turned = self.off_walls(floor);
        let movement = self.wall_bounce(floor);
        match victim {
            Some(_) => if turned.bounces > 0 {
                let back = reflected(movement, true, true);
                MagicMissile {
                    angle: Angle::direction_of(back.x as int, back.y as int),
                    bounces: bounced(turned.bounces),
                    pos: self.pos.moved(back.x as int, back.y as int),
                    time: next_time(self.time),
                    ..turned
                }
            } else {
                MagicMissile {
                    pos: self.pos.moved(-(movement.x as int), -(movement.y as int)).moved(
                        movement.x as int,
                        movement.y as int,
                    ),
                    time: next_time(next_time(self.time)),
                    ..turned
                }
            },
            None => MagicMissile {
                pos: self.pos.moved(movement.x as int, movement.y as int),
                time: next_time(self.time),
                ..turned
            },
        }
    }

    /// Whether one frame leads from `self` on `floor` to `after` on
    /// `floor_after`, and whether the missile is `done` then. The walls throw
    /// the missile back; the first monster that it touches then takes the
    /// damage that goes with the bounces so far; the missile flies on, and it
    /// is over when its time is up.
    pub open spec fn updated(
        self,
        after: MagicMissile,
        floor: FloorInfo,
        floor_after: FloorInfo,
        done: bool,
    ) -> bool {
        let monsters = monster_views(floor.monsters@);
        let turned = self.off_walls(&floor.floor);
        let victim = first_hit(monsters, turned.polygon(), 0);
        &&& floor.same_but_monsters(floor_after)
        &&& after == self.flown(&floor.floor, victim)
        &&& done == (after.time >= MISSILE_LIFETIME)
        &&& monster_views(floor_after.monsters@) == (match victim {
            Some(k) => with_hit(
                monsters,
                k,
                missile_damage(turned.bounces) as u16,
                self.pos,
                self.player_index,
                &floor.floor,
            ),
            None => monsters,
        })
    }
}

impl Attack for MagicMissile {
    open spec fn needs_owner() -> bool {
        true
    }

    fn new<A: AsPolygon>(
        aabb: &A,
        index: Option<usize>,
        angle: Angle,
        _floor: &Floor,
        _is_primary: bool,
    ) -> (missile: MagicMissile)
        ensures
            missile == (MagicMissile {
                pos: aabb.polygon().center,
                angle,
                time: 0,
                bounces: 0,
                player_index: index->0,
            }),
    {
        MagicMissile { pos: aabb.center(), angle, time: 0, bounces: 0, player_index: index.unwrap() }
    }

    /// "Knockback" the player a bit
    fn side_effects(&self, player: &mut Player, floor: &Floor)
        ensures
            *final(player) == lunged(*old(player), self.angle.step_spec(-1500), floor),
    {
        let change = self.angle.step(-1500);
        if !floor.collision(player, change) {
            player.pos = player.pos.plus(change);
        }
    }

    fn update(&mut self, floor_info: &mut FloorInfo, _players: &mut Vec<Player>, rng: &mut Rng) -> (done:
        bool)
        ensures
            old(self).updated(*final(self), *old(floor_info), *final(floor_info), done),
            old(self).time >= MISSILE_LIFETIME - 1 ==> done,
            *final(_players) == *old(_players),
            *final(rng) == *old(rng),
    {
        let start = *self;
        let raw = self.angle.step(MISSILE_SPEED);
        let collision_info = floor_info.floor.collision_dir(self, raw);
        let mut movement = reflect(raw, collision_info.x, collision_info.y);
        if collision_info.any() {
            if self.bounces < MAX_BOUNCES {
                self.bounces = self.bounces + 1;
            }
        }
        self.angle = Angle::from_vector(movement.x, movement.y);
        assert(*self == start.off_walls(&floor_info.floor));
        // Check to see if it's collided with a monster
        let poly = self.as_polygon();
        match find_hit(&floor_info.monsters, &poly) {
            Some(k) => {
                // The damage increases the more the projectile bounces
                let damage = bounce_damage(self.bounces);
                hit_monster(floor_info, k, damage, self.pos, self.player_index);
                if self.bounces > 0 {
                    movement = reflect(movement, true, true);
                    self.angle = Angle::from_vector(movement.x, movement.y);
                    if self.bounces < MAX_BOUNCES {
                        self.bounces = self.bounces + 1;
                    }
                } else {
                    self.pos = self.pos.minus(movement);
                    self.time = self.time.saturating_add(1);
                }
            },
            None => {},
        }
        self.pos = self.pos.plus(movement);
        self.time = self.time.saturating_add(1);
        self.time >= MISSILE_LIFETIME
    }

    fn cooldown(&self) -> (frames: u16)
        ensures
            frames == 45,
    {
        45
    }

    fn mana_cost(&self) -> (points: u16)
        ensures
            points == 1,
    {
        1
    }

    fn as_polygon_optional(&self) -> (p: Option<Polygon>)
        ensures
            p == Some(self.polygon()),
    {
        Some(self.as_polygon())
    }
}

// ---------------------------------------------------------------- BlindingLight

/// Frames after which a blinding light is over.
pub const LIGHT_LIFETIME: u16 = 60;

#[derive(Clone, Copy, Debug, PartialEq, Eq, Structural)]
pub struct BlindingLight {
    pub pos: Vec2,
    pub angle: Angle,
    pub time: u16,
}

impl AsPolygon for BlindingLight {
    open spec fn polygon(&self) -> Polygon {
        box_at(self.pos, 45000, 45000, self.angle)
    }

    fn as_polygon(&self) -> (p: Polygon) {
        let half = Vec2 { x: 45000, y: 45000 };
        easy_polygon(self.pos.plus(half), half, self.angle)
    }
}

/// The enchantment that a blinding light puts on monsters.
pub open spec fn blindness() -> Enchantment {
    Enchantment { kind: EnchantmentKind::Blinded, strength: 0 }
}

impl BlindingLight {
    /// Whether one frame leads from `self` on `floor` to `after` on
    /// `floor_after`, and whether the light is `done` then: the light grows
    /// a frame older, and until its time is up it blinds every monster that
    /// it touches. It does no damage.
    pub open spec fn updated(self, after: BlindingLight, floor: FloorInfo, floor_after: FloorInfo, done: bool) -> bool {
        &&& after == (BlindingLight { time: next_time(self.time), ..self })
        &&& done == (after.time >= LIGHT_LIFETIME)
        &&& floor.same_but_monsters(floor_after)
        &&& monster_views(floor_after.monsters@) == (if done {
            monster_views(floor.monsters@)
        } else {
            with_enchantment(monster_views(floor.monsters@), self.polygon(), blindness())
        })
    }
}

/// Puts `enchantment` on every monster that `poly` touches.
pub fn enchant_monsters(floor_info: &mut FloorInfo, poly: &Polygon, enchantment: Enchantment)
    ensures
        old(floor_info).same_but_monsters(*final(floor_info)),
        monster_views(final(floor_info).monsters@) == with_enchantment(
            monster_views(old(floor_info).monsters@),
            *poly,
            enchantment,
        ),
{
    let mut k: usize = 0;
    let ghost before = monster_views(floor_info.monsters@);
    while k < floor_info.monsters.len()
        invariant
            k <= floor_info.monsters@.len(),
            floor_info.monsters@.len() == old(floor_info).monsters@.len(),
            old(floor_info).same_but_monsters(*floor_info),
            before == monster_views(old(floor_info).monsters@),
            forall|j: int|
                0 <= j < k ==> (#[trigger] floor_info.monsters@[j])@ == with_enchantment(
                    before,
                    *poly,
                    enchantment,
                )[j],
            forall|j: int|
                k <= j < floor_info.monsters@.len() ==> (#[trigger] floor_info.monsters@[j])@
                    == before[j],
        decreases floor_info.monsters@.len() - k,
    {
        let shape = floor_info.monsters[k].as_polygon();
        if polygons_collide(poly, &shape, Vec2 { x: 0, y: 0 }) {
            floor_info.monsters[k].apply_enchantment(enchantment);
        }
        k = k + 1;
    }
    assert(monster_views(floor_info.monsters@) =~= with_enchantment(before, *poly, enchantment));
}

impl Attack for BlindingLight {
    open spec fn needs_owner() -> bool {
        false
    }

    fn new<A: AsPolygon>(
        aabb: &A,
        _index: Option<usize>,
        angle: Angle,
        _floor: &Floor,
        _is_primary: bool,
    ) -> (light: BlindingLight)
        ensures
            light == (BlindingLight {
                pos: advanced(aabb.polygon().center, angle, PLAYER_SIZE as int),
                angle,
                time: 0,
            }),
    {
        BlindingLight { pos: aabb.center().plus(angle.step(PLAYER_SIZE)), angle, time: 0 }
    }

    fn update(&mut self, floor: &mut FloorInfo, _players: &mut Vec<Player>, rng: &mut Rng) -> (done: bool)
        ensures
            old(self).updated(*final(self), *old(floor), *final(floor), done),
            old(self).time >= LIGHT_LIFETIME - 1 ==> done,
            *final(_players) == *old(_players),
            *final(rng) == *old(rng),
    {
        let poly = self.as_polygon();
        self.time = self.time.saturating_add(1);
        if self.time >= LIGHT_LIFETIME {
            return true;
        }
        // Check to see if it's collided with a monster
        enchant_monsters(floor, &poly, Enchantment { kind: EnchantmentKind::Blinded, strength: 0 });
        false
    }

    fn cooldown(&self) -> (frames: u16)
        ensures
            frames == 60,
    {
        60
    }

    fn mana_cost(&self) -> (points: u16)
        ensures
            points == 3,
    {
        3
    }

    fn side_effects(&self, _player: &mut Player, _floor: &Floor)
        ensures
            *final(_player) == *old(_player),
    {
    }

    fn as_polygon_optional(&self) -> (p: Option<Polygon>)
        ensures
            p == Some(self.polygon()),
    {
        Some(self.as_polygon())
    }
}

// ---------------------------------------------------------------- Slimeball

/// Frames after which a slimeball is over.
pub const SLIMEBALL_LIFETIME: u16 = 30;

pub const SLIMEBALL_DAMAGE: u16 = 6;

/// How far a slimeball moves in a frame, in fixed-point units.
pub const SLIMEBALL_SPEED: i32 = 2200;

#[derive(Clone, Copy, Debug, PartialEq, Eq, Structural)]
pub struct Slimeball {
    pub pos: Vec2,
    pub angle: Angle,
    pub time: u16,
}

impl AsPolygon for Slimeball {
    open spec fn polygon(&self) -> Polygon {
        box_at(self.pos, 7500, 2500, Angle::zero_spec())
    }

    fn as_polygon(&self) -> (p: Polygon) {
        let half = Vec2 { x: 7500, y: 2500 };
        easy_polygon(self.pos.plus(half), half, Angle::zero())
    }
}

/// The place of the first player, at or after `from`, whom `poly` touches.
pub open spec fn first_touched(players: Seq<Player>, poly: Polygon, from: int) -> Option<int>
    decreases players.len() - from,
{
    if from < 0 || from >= players.len() {
        None
    } else if poly.collides(players[from].polygon(), 0, 0) {
        Some(from)
    } else {
        first_touched(players, poly, from + 1)
    }
}

/// The first player whom `poly` touches.
pub fn find_touched(players: &Vec<Player>, poly: &Polygon) -> (r: Option<usize>)
    ensures
        match r {
            Some(k) => Some(k as int),
            None => None,
        } == first_touched(players@, *poly, 0),
        r matches Some(k) ==> k < players@.len(),
{
    let mut k: usize = 0;
    while k < players.len()
        invariant
            k <= players@.len(),
            first_touched(players@, *poly, 0) == first_touched(players@, *poly, k as int),
        decreases players@.len() - k,
    {
        let shape = players[k].as_polygon();
        if polygons_collide(poly, &shape, Vec2 { x: 0, y: 0 }) {
            return Some(k);
        }
        k = k + 1;
    }
    None
}

/// The enchantment that a slimeball puts on a player.
pub open spec fn slime() -> Enchantment {
    Enchantment { kind: EnchantmentKind::Sticky, strength: 2 }
}

impl Slimeball {
    /// Whether the slimeball runs into a wall with its next step.
    pub open spec fn hits_wall(self, floor: &Floor) -> bool {
        floor.blocked(
            self.polygon(),
            self.angle.step_spec(SLIMEBALL_SPEED as int).x as int,
            self.angle.step_spec(SLIMEBALL_SPEED as int).y as int,
        )
    }

    /// The slimeball after a step that no wall stops.
    pub open spec fn stepped(self) -> Slimeball {
        Slimeball {
            pos: advanced(self.pos, self.angle, SLIMEBALL_SPEED as int),
            time: next_time(self.time),
            ..self
        }
    }

    /// The player whom the slimeball hits in this frame.
    pub open spec fn victim(self, floor: &Floor, players: Seq<Player>) -> Option<int> {
        if self.hits_wall(floor) || self.stepped().time >= SLIMEBALL_LIFETIME {
            None
        } else {
            first_touched(players, self.stepped().polygon(), 0)
        }
    }

    /// Whether one frame leads from `self` and `players` to `after` and
    /// `players_after`, and whether the slimeball is `done` then. A
    /// slimeball that a wall stops is over at once. Any other moves on and is
    /// over when its time is up or when it touches a player; that player
    /// takes `SLIMEBALL_DAMAGE` and is slimed.
    pub open spec fn updated(
        self,
        after: Slimeball,
        floor: &Floor,
        players: Seq<Player>,
        players_after: Seq<Player>,
        done: bool,
    ) -> bool {
        &&& after == (if self.hits_wall(floor) {
            self
        } else {
            self.stepped()
        })
        &&& done == (self.hits_wall(floor) || self.stepped().time >= SLIMEBALL_LIFETIME
            || self.victim(floor, players) is Some)
        &&& players_after == (match self.victim(floor, players) {
            Some(k) => players.update(
                k,
                damaged_player(
                    players[k],
                    SLIMEBALL_DAMAGE,
                    angle_between(players[k].pos, self.stepped().pos),
                    floor,
                ).enchanted(slime()),
            ),
            None => players,
        })
    }
}

impl Attack for Slimeball {
    open spec fn needs_owner() -> bool {
        false
    }

    fn new<A: AsPolygon>(
        aabb: &A,
        _index: Option<usize>,
        angle: Angle,
        _floor: &Floor,
        _is_primary: bool,
    ) -> (ball: Slimeball)
        ensures
            ball == (Slimeball { pos: aabb.polygon().center, angle, time: 0 }),
    {
        Slimeball { pos: aabb.center(), angle, time: 0 }
    }

    fn side_effects(&self, _player: &mut Player, _floor_info: &Floor)
        ensures
            *final(_player) == *old(_player),
    {
    }

    fn update(&mut self, floor_info: &mut FloorInfo, players: &mut Vec<Player>, rng: &mut Rng) -> (done:
        bool)
        ensures
            old(self).updated(
                *final(self),
                &old(floor_info).floor,
                old(players)@,
                final(players)@,
                done,
            ),
            old(self).time >= SLIMEBALL_LIFETIME - 1 ==> done,
            final(players)@.len() == old(players)@.len(),
            *final(floor_info) == *old(floor_info),
            *final(rng) == *old(rng),
    {
        let movement = self.angle.step(SLIMEBALL_SPEED);
        if !floor_info.floor.collision(self, movement) {
            self.pos = self.pos.plus(movement);
            self.time = self.time.saturating_add(1);
        } else {
            return true;
        }
        if self.time >= SLIMEBALL_LIFETIME {
            return true;
        }
        let poly = self.as_polygon();
        // Check to see if it's collided with a player
        match find_touched(players, &poly) {
            Some(k) => {
                let direction = get_angle(players[k].pos, self.pos);
                proof {
                    lemma_angle_between(players@[k as int].pos, self.pos, direction);
                }
                damage_player(&mut players[k], SLIMEBALL_DAMAGE, direction, &floor_info.floor);
                players[k].apply_enchantment(
                    Enchantment { kind: EnchantmentKind::Sticky, strength: 2 },
                );
                assert(players@ =~= old(players)@.update(
                    k as int,
                    damaged_player(
                        old(players)@[k as int],
                        SLIMEBALL_DAMAGE,
                        angle_between(old(players)@[k as int].pos, self.pos),
                        &floor_info.floor,
                    ).enchanted(slime()),
                ));
                true
            },
            None => false,
        }
    }

    fn cooldown(&self) -> (frames: u16)
        ensures
            frames == 80,
    {
        80
    }

    fn mana_cost(&self) -> (points: u16)
        ensures
            points == 0,
    {
        0
    }

    fn as_polygon_optional(&self) -> (p: Option<Polygon>)
        ensures
            p is None,
    {
        None
    }
}

// ---------------------------------------------------------------- ThrownKnife

pub const KNIFE_DAMAGE: u16 = 18;

/// How far a thrown knife moves in a frame, in fixed-point units.
pub const KNIFE_SPEED: i32 = 8000;

/// A knife that stops breaks when the draw from zero up to this number
/// gives this number.
pub const KNIFE_BREAK_ROLL: i32 = 9;

#[derive(Clone, Copy, Debug, PartialEq, Eq, Structural)]
pub struct ThrownKnife {
    pub pos: Vec2,
    pub movement_angle: Angle,
    pub rotation_angle: Angle,
    pub time: u16,
    pub player_index: usize,
}

/// The angle by which a thrown knife spins in a frame: half a radian.
pub open spec fn knife_spin() -> (int, int) {
    (87758, 47943)
}

impl AsPolygon for ThrownKnife {
    open spec fn polygon(&self) -> Polygon {
        box_at(self.pos, 5000, 10000, self.rotation_angle)
    }

    fn as_polygon(&self) -> (p: Polygon) {
        let half = Vec2 { x: 5000, y: 10000 };
        easy_polygon(self.pos.plus(half), half, self.rotation_angle)
    }
}

/// The tiles on which a knife that stops over the tile `center` may come to
/// lie, in the order in which they are looked at.
pub open spec fn knife_drop_tiles(center: IVec2) -> Seq<IVec2> {
    seq![
        center.moved(0, 0),
        center.moved(-1, 0),
        center.moved(0, -1),
        center.moved(-1, -1),
        center.moved(1, 0),
        center.moved(0, 1),
        center.moved(1, 1),
        center.moved(-1, 1),
        center.moved(1, -1),
    ]
}

/// Whether a knife can lie on the tile `pos`: the tile is on the map and
/// does not stop movement.
pub open spec fn can_hold_knife(floor: &Floor, pos: IVec2) -> bool {
    in_bounds(pos) && !floor.at(pos).collidable()
}

/// The tile, among the first `n` of `tiles`, that can hold a knife and is
/// nearest to `center`; of two that are equally near, the later one.
pub open spec fn nearest_open(floor: &Floor, center: IVec2, tiles: Seq<IVec2>, n: int) -> Option<IVec2>
    decreases n,
{
    if n <= 0 || n > tiles.len() {
        None
    } else {
        let tile = tiles[n - 1];
        match nearest_open(floor, center, tiles, n - 1) {
            Some(best) => if can_hold_knife(floor, tile) && !(crate::map::distance_squared_spec(
                best,
                center,
            ) < crate::map::distance_squared_spec(tile, center)) {
                Some(tile)
            } else {
                Some(best)
            },
            None => if can_hold_knife(floor, tile) {
                Some(tile)
            } else {
                None
            },
        }
    }
}

/// The tile on which a knife that stops over the tile `center` comes to
/// lie.
pub fn find_drop_tile(floor: &Floor, center: IVec2) -> (r: Option<IVec2>)
    requires
        floor.wf(),
    ensures
        r == nearest_open(floor, center, knife_drop_tiles(center), 9),
        r matches Some(p) ==> in_bounds(p),
{
    let tiles = [
        center.offset(0, 0),
        center.offset(-1, 0),
        center.offset(0, -1),
        center.offset(-1, -1),
        center.offset(1, 0),
        center.offset(0, 1),
        center.offset(1, 1),
        center.offset(-1, 1),
        center.offset(1, -1),
    ];
    assert(tiles@ =~= knife_drop_tiles(center));
    let mut best: Option<IVec2> = None;
    let mut best_distance: u128 = 0;
    let mut n: usize = 0;
    while n < 9
        invariant
            n <= 9,
            floor.wf(),
            tiles@ == knife_drop_tiles(center),
            best == nearest_open(floor, center, tiles@, n as int),
            best matches Some(b) ==> in_bounds(b) && best_distance
                == crate::map::distance_squared_spec(b, center),
        decreases 9 - n,
    {
        let tile = tiles[n];
        let open = match floor.get_object_from_pos(tile) {
            Some(object) => !object.is_collidable(),
            None => false,
        };
        if open {
            let d = crate::math::square_sum(
                center.x as i64 - tile.x as i64,
                center.y as i64 - tile.y as i64,
            );
            match best {
                Some(b) => {
                    if !(best_distance < d) {
                        best = Some(tile);
                        best_distance = d;
                    }
                },
                None => {
                    best = Some(tile);
                    best_distance = d;
                },
            }
        }
        n = n + 1;
    }
    best
}

/// The item that a thrown knife leaves on the tile `pos`.
pub open spec fn dropped_knife(pos: IVec2) -> ItemInfo {
    ItemInfo {
        cursed: false,
        item_type: ItemType::ThrowingKnife,
        tile_pos: Some(pos),
        stack_count: Some(1u8),
    }
}

impl ThrownKnife {
    /// Whether the knife runs into a wall with its next step.
    pub open spec fn hits_wall(self, floor: &Floor) -> bool {
        floor.blocked(
            self.polygon(),
            self.movement_angle.step_spec(KNIFE_SPEED as int).x as int,
            self.movement_angle.step_spec(KNIFE_SPEED as int).y as int,
        )
    }

    /// Whether `after` is the knife one frame after `self`: it has made its
    /// step, unless a wall stops it, and it has spun on.
    pub open spec fn flown(self, after: ThrownKnife, floor: &Floor) -> bool {
        &&& after.pos == (if self.hits_wall(floor) {
            self.pos
        } else {
            advanced(self.pos, self.movement_angle, KNIFE_SPEED as int)
        })
        &&& after.time == (if self.hits_wall(floor) {
            self.time
        } else {
            next_time(self.time)
        })
        &&& (after.rotation_angle.cos_spec(), after.rotation_angle.sin_spec()) == turned(
            self.rotation_angle,
            knife_spin(),
        )
        &&& after.movement_angle == self.movement_angle
        &&& after.player_index == self.player_index
    }

    /// Whether one frame leads from `self` on `floor` to `after` on
    /// `floor_after`, with the generator going from `state` to
    /// `state_after`, and whether the knife is `done` then. The knife flies
    /// on unless a wall stops it; the first monster that it touches takes
    /// `KNIFE_DAMAGE`. The knife is over when a wall has stopped it or it
    /// has hit a monster. Then one number is drawn, and unless the knife
    /// breaks it is left as an item on the nearest tile that can hold it,
    /// among the tile under it and the eight around; where there is none,
    /// the knife is lost.
    pub open spec fn updated(
        self,
        after: ThrownKnife,
        floor: FloorInfo,
        floor_after: FloorInfo,
        state: u64,
        state_after: u64,
        done: bool,
    ) -> bool {
        let monsters = monster_views(floor.monsters@);
        let victim = first_hit(monsters, after.polygon(), 0);
        &&& self.flown(after, &floor.floor)
        &&& done == (self.hits_wall(&floor.floor) || victim is Some)
        &&& floor.same_but_monsters_and_floor(floor_after)
        &&& monster_views(floor_after.monsters@) == (match victim {
            Some(k) => with_hit(
                monsters,
                k,
                KNIFE_DAMAGE,
                after.pos,
                self.player_index,
                &floor.floor,
            ),
            None => monsters,
        })
        &&& state_after == (if done {
            next_state(state)
        } else {
            state
        })
        &&& if done && scale_to_range(0, KNIFE_BREAK_ROLL as int, output(state))
            != KNIFE_BREAK_ROLL {
            match nearest_open(
                &floor.floor,
                tile_of(after.polygon().center),
                knife_drop_tiles(tile_of(after.polygon().center)),
                9,
            ) {
                Some(pos) => floor.floor.item_added(floor_after.floor, dropped_knife(pos)),
                None => floor_after.floor == floor.floor,
            }
        } else {
            floor_after.floor == floor.floor
        }
    }
}

impl Attack for ThrownKnife {
    open spec fn needs_owner() -> bool {
        true
    }

    fn new<A: AsPolygon>(
        aabb: &A,
        index: Option<usize>,
        angle: Angle,
        _floor: &Floor,
        _is_primary: bool,
    ) -> (knife: ThrownKnife)
        ensures
            knife == (ThrownKnife {
                pos: aabb.polygon().center.moved(-5000, -10000),
                movement_angle: angle,
                rotation_angle: angle,
                time: 0,
                player_index: index->0,
            }),
    {
        ThrownKnife {
            pos: aabb.center().minus(Vec2 { x: 5000, y: 10000 }),
            movement_angle: angle,
            rotation_angle: angle,
            time: 0,
            player_index: index.unwrap(),
        }
    }

    /// The player lunges forward by its own length, unless something is in
    /// the way.
    fn side_effects(&self, player: &mut Player, floor: &Floor)
        ensures
            *final(player) == lunged(
                *old(player),
                self.movement_angle.step_spec(PLAYER_SIZE as int),
                floor,
            ),
    {
        let change = self.movement_angle.step(PLAYER_SIZE);
        if !floor.collision(player, change) {
            player.pos = player.pos.plus(change);
        }
    }

    fn update(&mut self, floor_info: &mut FloorInfo, _players: &mut Vec<Player>, rng: &mut Rng) -> (done:
        bool)
        ensures
            old(self).updated(
                *final(self),
                *old(floor_info),
                *final(floor_info),
                old(rng).state,
                final(rng).state,
                done,
            ),
            final(floor_info).floor.wf(),
            *final(_players) == *old(_players),
    {
        let movement = self.movement_angle.step(KNIFE_SPEED);
        let mut should_drop = false;
        if !floor_info.floor.collision(self, movement) {
            self.pos = self.pos.plus(movement);
            self.time = self.time.saturating_add(1);
        } else {
            should_drop = true;
        }
        let spin = Angle::from_vector(87758, 47943);
        self.rotation_angle = self.rotation_angle.rotated(&spin);
        let poly = self.as_polygon();
        // Check to see if it's collided with a monster
        match find_hit(&floor_info.monsters, &poly) {
            Some(k) => {
                hit_monster(floor_info, k, KNIFE_DAMAGE, self.pos, self.player_index);
                should_drop = true;
            },
            None => {},
        }
        if should_drop {
            let should_break = rng.gen_range(0, KNIFE_BREAK_ROLL) == KNIFE_BREAK_ROLL;
            // Don't drop anything if the item should break
            if !should_break {
                // Find the nearest tile that is open, or just break
                let tile_pos = world_to_tile(poly.center);
                match find_drop_tile(&floor_info.floor, tile_pos) {
                    Some(item_pos) => {
                        let item = ItemInfo::new(ItemType::ThrowingKnife, Some(item_pos));
                        floor_info.floor.add_item_to_object(item);
                    },
                    None => {},
                }
            }
        }
        should_drop
    }

    fn cooldown(&self) -> (frames: u16)
        ensures
            frames == 10,
    {
        10
    }

    fn mana_cost(&self) -> (points: u16)
        ensures
            points == 0,
    {
        0
    }

    fn as_polygon_optional(&self) -> (p: Option<Polygon>)
        ensures
            p == Some(self.polygon()),
    {
        Some(self.as_polygon())
    }
}

// ---------------------------------------------------------------- AttackObj

#[derive(Clone, Copy, Debug, PartialEq, Eq, Structural)]
pub enum AttackObj {
    BlindingLight(BlindingLight),
    MagicMissile(MagicMissile),
    Slash(Slash),
    Slimeball(Slimeball),
    Stab(Stab),
    ThrowingKnife(ThrownKnife),
}

/// What an attack acts on in a frame: the floor with its monsters, the
/// players, and the state of the generator.
pub struct World {
    pub floor: FloorInfo,
    pub players: Seq<Player>,
    pub state: u64,
}

impl AttackObj {
    /// Whether one frame leads from the attack `self` in the world `before`
    /// to the attack `next` in the world `after`, and whether the attack is
    /// `done` then.
    pub open spec fn updated(self, next: AttackObj, before: World, after: World, done: bool) -> bool {
        match self {
            AttackObj::BlindingLight(obj) => next matches AttackObj::BlindingLight(n)
                && obj.updated(n, before.floor, after.floor, done) && after.players
                == before.players && after.state == before.state,
            AttackObj::MagicMissile(obj) => next matches AttackObj::MagicMissile(n)
                && obj.updated(n, before.floor, after.floor, done) && after.players
                == before.players && after.state == before.state,
            AttackObj::Slash(obj) => next matches AttackObj::Slash(n) && obj.updated(
                n,
                before.floor,
                after.floor,
                before.players,
                done,
            ) && after.players == before.players && after.state == before.state,
            AttackObj::Slimeball(obj) => next matches AttackObj::Slimeball(n) && obj.updated(
                n,
                &before.floor.floor,
                before.players,
                after.players,
                done,
            ) && after.floor == before.floor && after.state == before.state,
            AttackObj::Stab(obj) => next matches AttackObj::Stab(n) && obj.updated(
                n,
                before.floor,
                after.floor,
                done,
            ) && after.players == before.players && after.state == before.state,
            AttackObj::ThrowingKnife(obj) => next matches AttackObj::ThrowingKnife(n)
                && obj.updated(n, before.floor, after.floor, before.state, after.state, done)
                && after.players == before.players,
        }
    }

    pub fn side_effects(&self, player: &mut Player, floor: &Floor)
        ensures
            *final(player) == (match self {
                AttackObj::Stab(obj) => lunged(
                    *old(player),
                    obj.angle.step_spec(PLAYER_SIZE as int),
                    floor,
                ),
                AttackObj::ThrowingKnife(obj) => lunged(
                    *old(player),
                    obj.movement_angle.step_spec(PLAYER_SIZE as int),
                    floor,
                ),
                AttackObj::MagicMissile(obj) => lunged(
                    *old(player),
                    obj.angle.step_spec(-1500),
                    floor,
                ),
                _ => *old(player),
            }),
    {
        match self {
            AttackObj::BlindingLight(obj) => obj.side_effects(player, floor),
            AttackObj::MagicMissile(obj) => obj.side_effects(player, floor),
            AttackObj::Slash(obj) => obj.side_effects(player, floor),
            AttackObj::Slimeball(obj) => obj.side_effects(player, floor),
            AttackObj::Stab(obj) => obj.side_effects(player, floor),
            AttackObj::ThrowingKnife(obj) => obj.side_effects(player, floor),
        }
    }

    /// The mana that the attack costs.
    pub open spec fn mana_cost_spec(self) -> u16 {
        match self {
            AttackObj::BlindingLight(_) => 3,
            AttackObj::MagicMissile(_) => 1,
            _ => 0,
        }
    }

    /// The frames that the attacker has to wait after the attack.
    pub open spec fn cooldown_spec(self) -> u16 {
        match self {
            AttackObj::BlindingLight(_) => 60,
            AttackObj::MagicMissile(_) => 45,
            AttackObj::Slash(_) => 30,
            AttackObj::Slimeball(_) => 80,
            AttackObj::Stab(_) => 50,
            AttackObj::ThrowingKnife(_) => 10,
        }
    }

    pub fn mana_cost(&self) -> (points: u16)
        ensures
            points == self.mana_cost_spec(),
    {
        match self {
            AttackObj::BlindingLight(obj) => obj.mana_cost(),
            AttackObj::MagicMissile(obj) => obj.mana_cost(),
            AttackObj::Slash(obj) => obj.mana_cost(),
            AttackObj::Slimeball(obj) => obj.mana_cost(),
            AttackObj::Stab(obj) => obj.mana_cost(),
            AttackObj::ThrowingKnife(obj) => obj.mana_cost(),
        }
    }

    pub fn update(&mut self, floor: &mut FloorInfo, players: &mut Vec<Player>, rng: &mut Rng) -> (done:
        bool)
        requires
            old(floor).floor.wf(),
        ensures
            final(floor).floor.wf(),
            final(players)@.len() == old(players)@.len(),
            old(self).updated(
                *final(self),
                World { floor: *old(floor), players: old(players)@, state: old(rng).state },
                World { floor: *final(floor), players: final(players)@, state: final(rng).state },
                done,
            ),
    {
        let ghost before = World { floor: *floor, players: players@, state: rng.state };
        let start = *self;
        match start {
            AttackObj::BlindingLight(obj) => {
                let mut next = obj;
                let done = next.update(floor, players, rng);
                *self = AttackObj::BlindingLight(next);
                assert(start.updated(
                    *self,
                    before,
                    World { floor: *floor, players: players@, state: rng.state },
                    done,
                ));
                done
            },
            AttackObj::MagicMissile(obj) => {
                let mut next = obj;
                let done = next.update(floor, players, rng);
                *self = AttackObj::MagicMissile(next);
                assert(start.updated(
                    *self,
                    before,
                    World { floor: *floor, players: players@, state: rng.state },
                    done,
                ));
                done
            },
            AttackObj::Slash(obj) => {
                let mut next = obj;
                let done = next.update(floor, players, rng);
                *self = AttackObj::Slash(next);
                assert(start.updated(
                    *self,
                    before,
                    World { floor: *floor, players: players@, state: rng.state },
                    done,
                ));
                done
            },
            AttackObj::Slimeball(obj) => {
                let mut next = obj;
                let done = next.update(floor, players, rng);
                *self = AttackObj::Slimeball(next);
                assert(start.updated(
                    *self,
                    before,
                    World { floor: *floor, players: players@, state: rng.state },
                    done,
                ));
                done
            },
            AttackObj::Stab(obj) => {
                let mut next = obj;
                let done = next.update(floor, players, rng);
                *self = AttackObj::Stab(next);
                assert(start.updated(
                    *self,
                    before,
                    World { floor: *floor, players: players@, state: rng.state },
                    done,
                ));
                done
            },
            AttackObj::ThrowingKnife(obj) => {
                let mut next = obj;
                let done = next.update(floor, players, rng);
                *self = AttackObj::ThrowingKnife(next);
                assert(start.updated(
                    *self,
                    before,
                    World { floor: *floor, players: players@, state: rng.state },
                    done,
                ));
                done
            },
        }
    }

    pub fn cooldown(&self) -> (frames: u16)
        ensures
            frames == self.cooldown_spec(),
    {
        match self {
            AttackObj::BlindingLight(obj) => obj.cooldown(),
            AttackObj::MagicMissile(obj) => obj.cooldown(),
            AttackObj::Slash(obj) => obj.cooldown(),
            AttackObj::Slimeball(obj) => obj.cooldown(),
            AttackObj::Stab(obj) => obj.cooldown(),
            AttackObj::ThrowingKnife(obj) => obj.cooldown(),
        }
    }

    pub fn pos(&self) -> (v: Vec2)
        ensures
            v == (match self {
                AttackObj::BlindingLight(obj) => obj.pos,
                AttackObj::MagicMissile(obj) => obj.pos,
                AttackObj::Slash(obj) => obj.pos,
                AttackObj::Slimeball(obj) => obj.pos,
                AttackObj::Stab(obj) => obj.pos,
                AttackObj::ThrowingKnife(obj) => obj.pos,
            }),
    {
        match self {
            AttackObj::BlindingLight(obj) => obj.pos,
            AttackObj::MagicMissile(obj) => obj.pos,
            AttackObj::Slash(obj) => obj.pos,
            AttackObj::Slimeball(obj) => obj.pos,
            AttackObj::Stab(obj) => obj.pos,
            AttackObj::ThrowingKnife(obj) => obj.pos,
        }
    }

    /// The size at which the attack is drawn.
    pub fn size(&self) -> (v: Vec2)
        ensures
            v == (match self {
                AttackObj::BlindingLight(_) => Vec2 { x: 90000, y: 90000 },
                AttackObj::MagicMissile(_) => Vec2 { x: 15000, y: 15000 },
                AttackObj::Slash(_) => Vec2 { x: 15000, y: 20000 },
                AttackObj::Slimeball(_) => Vec2 { x: 15000, y: 5000 },
                AttackObj::Stab(_) => Vec2 { x: 15000, y: 5000 },
                AttackObj::ThrowingKnife(_) => Vec2 { x: 10000, y: 20000 },
            }),
    {
        match self {
            AttackObj::BlindingLight(_) => Vec2 { x: 90000, y: 90000 },
            AttackObj::MagicMissile(_) => Vec2 { x: 15000, y: 15000 },
            AttackObj::Slash(_) => Vec2 { x: 15000, y: 20000 },
            AttackObj::Slimeball(_) => Vec2 { x: 15000, y: 5000 },
            AttackObj::Stab(_) => Vec2 { x: 15000, y: 5000 },
            AttackObj::ThrowingKnife(_) => Vec2 { x: 10000, y: 20000 },
        }
    }

    /// The angle at which the attack is drawn.
    pub fn rotation(&self) -> (a: Angle)
        ensures
            a == (match self {
                AttackObj::BlindingLight(obj) => obj.angle,
                AttackObj::MagicMissile(obj) => obj.angle,
                AttackObj::Slash(obj) => obj.angle,
                AttackObj::Slimeball(obj) => obj.angle,
                AttackObj::Stab(obj) => obj.angle,
                AttackObj::ThrowingKnife(obj) => obj.rotation_angle,
            }),
    {
        match self {
            AttackObj::BlindingLight(obj) => obj.angle,
            AttackObj::MagicMissile(obj) => obj.angle,
            AttackObj::Slash(obj) => obj.angle,
            AttackObj::Slimeball(obj) => obj.angle,
            AttackObj::Stab(obj) => obj.angle,
            AttackObj::ThrowingKnife(obj) => obj.rotation_angle,
        }
    }

    /// The sprite that shows the attack.
    pub fn texture(&self) -> (name: &'static str)
        ensures
            name@ == (match self {
                AttackObj::BlindingLight(_) => "blinding_light.webp"@,
                AttackObj::MagicMissile(_) => "magic_missile.webp"@,
                AttackObj::Slash(_) => "sword.webp"@,
                AttackObj::Slimeball(_) => "slimeball.webp"@,
                AttackObj::Stab(_) => "stab.webp"@,
                AttackObj::ThrowingKnife(_) => "throwing_knife.webp"@,
            }),
    {
        match self {
            AttackObj::BlindingLight(_) => "blinding_light.webp",
            AttackObj::MagicMissile(_) => "magic_missile.webp",
            AttackObj::Slash(_) => "sword.webp",
            AttackObj::Slimeball(_) => "slimeball.webp",
            AttackObj::Stab(_) => "stab.webp",
            AttackObj::ThrowingKnife(_) => "throwing_knife.webp",
        }
    }

    /// Whether the sprite is mirrored: only that of a slash is not.
    pub fn flip_x(&self) -> (r: bool)
        ensures
            r == !(self is Slash),
    {
        match self {
            AttackObj::Slash(_) => false,
            _ => true,
        }
    }
}

/// Whether the frames of the first `n` of `attacks`, taken one after the
/// other, lead through the worlds `trace`: the attack at place `k` goes from
/// `trace[k]` to `trace[k + 1]`, ends as `results[k].0`, and is over as
/// `results[k].1` tells.
pub open spec fn attacks_ran(
    attacks: Seq<AttackObj>,
    results: Seq<(AttackObj, bool)>,
    trace: Seq<World>,
    n: int,
) -> bool {
    &&& results.len() == n
    &&& trace.len() == n + 1
    &&& forall|k: int|
        0 <= k < n ==> (#[trigger] attacks[k]).updated(
            results[k].0,
            trace[k],
            trace[k + 1],
            results[k].1,
        )
}

/// The attacks that go on after a frame: those of `results` that are not
/// over.
pub open spec fn survivors(results: Seq<(AttackObj, bool)>) -> Seq<AttackObj>
    decreases results.len(),
{
    if results.len() == 0 {
        Seq::empty()
    } else if results.last().1 {
        survivors(results.drop_last())
    } else {
        survivors(results.drop_last()).push(results.last().0)
    }
}

/// Lets one frame pass for every attack, in order, and drops the attacks
/// that are over.
pub fn update_attacks(players: &mut Vec<Player>, floor: &mut FloorInfo, attacks: &mut Vec<AttackObj>, rng: &mut Rng)
    requires
        old(floor).floor.wf(),
    ensures
        final(floor).floor.wf(),
        final(players)@.len() == old(players)@.len(),
        exists|results: Seq<(AttackObj, bool)>, trace: Seq<World>|
            #![auto]
            attacks_ran(old(attacks)@, results, trace, old(attacks)@.len() as int) && trace[0] == (
            World { floor: *old(floor), players: old(players)@, state: old(rng).state })
                && trace[old(attacks)@.len() as int] == (World {
                floor: *final(floor),
                players: final(players)@,
                state: final(rng).state,
            }) && final(attacks)@ == survivors(results),
{
    let mut kept: Vec<AttackObj> = Vec::new();
    let ghost mut results: Seq<(AttackObj, bool)> = Seq::empty();
    let ghost mut trace: Seq<World> = seq![
        World { floor: *floor, players: players@, state: rng.state },
    ];
    let mut i: usize = 0;
    while i < attacks.len()
        invariant
            i <= attacks@.len(),
            *attacks == *old(attacks),
            floor.floor.wf(),
            players@.len() == old(players)@.len(),
            attacks_ran(attacks@, results, trace, i as int),
            trace[0] == (World {
                floor: *old(floor),
                players: old(players)@,
                state: old(rng).state,
            }),
            trace[i as int] == (World { floor: *floor, players: players@, state: rng.state }),
            kept@ == survivors(results),
        decreases attacks@.len() - i,
    {
        let mut attack = attacks[i];
        let done = attack.update(floor, players, rng);
        proof {
            let before_results = results;
            let before_trace = trace;
            results = results.push((attack, done));
            trace = trace.push(World { floor: *floor, players: players@, state: rng.state });
            assert(results.drop_last() =~= before_results);
            assert forall|k: int| 0 <= k < i + 1 implies (#[trigger] attacks@[k]).updated(
                results[k].0,
                trace[k],
                trace[k + 1],
                results[k].1,
            ) by {
                if k < i {
                    assert(results[k] == before_results[k]);
                    assert(trace[k] == before_trace[k]);
                    assert(trace[k + 1] == before_trace[k + 1]);
                }
            }
        }
        if !done {
            kept.push(attack);
        }
        i = i + 1;
    }
    *attacks = kept;
}

/// The attack that a player makes with an item of the given type: a
/// slash with the short sword, a stab with the wizard's dagger, the first
/// of the player's spells with the wizard's glove, a thrown knife with a
/// throwing knife, and nothing with anything else. An attack that has to be
/// made by a player is not made where no index of a player is given.
pub open spec fn attack_made(item_type: ItemType, player: Player, index: Option<usize>) -> Option<
    AttackObj,
> {
    let center = player.polygon().center;
    match item_type {
        ItemType::ShortSword => if index is Some {
            Some(
                AttackObj::Slash(
                    Slash {
                        pos: center,
                        angle: Angle::from_parts(
                            turned(player.angle, slash_lead()).0,
                            turned(player.angle, slash_lead()).1,
                        ),
                        time: 0,
                        player_index: index->0,
                        num_piercings: 0,
                    },
                ),
            )
        } else {
            None
        },
        ItemType::WizardsDagger => if index is Some {
            Some(
                AttackObj::Stab(
                    Stab {
                        pos: center,
                        angle: player.angle,
                        time: 0,
                        player_index: index->0,
                        num_piercings: 0,
                    },
                ),
            )
        } else {
            None
        },
        ItemType::WizardGlove => if player.spells@.len() == 0 {
            None
        } else {
            match player.spells@[0] {
                crate::player::Spell::BlindingLight => Some(
                    AttackObj::BlindingLight(
                        BlindingLight {
                            pos: advanced(center, player.angle, PLAYER_SIZE as int),
                            angle: player.angle,
                            time: 0,
                        },
                    ),
                ),
                crate::player::Spell::MagicMissile => if index is Some {
                    Some(
                        AttackObj::MagicMissile(
                            MagicMissile {
                                pos: center,
                                angle: player.angle,
                                time: 0,
                                bounces: 0,
                                player_index: index->0,
                            },
                        ),
                    )
                } else {
                    None
                },
            }
        },
        ItemType::ThrowingKnife => if index is Some {
            Some(
                AttackObj::ThrowingKnife(
                    ThrownKnife {
                        pos: center.moved(-5000, -10000),
                        movement_angle: player.angle,
                        rotation_angle: player.angle,
                        time: 0,
                        player_index: index->0,
                    },
                ),
            )
        } else {
            None
        },
        ItemType::Potion(_) => None,
        ItemType::Gold(_) => None,
    }
}

/// The attack that `player` makes with `item`.
pub fn attack_with_item(
    item: ItemInfo,
    player: &Player,
    index: Option<usize>,
    floor: &FloorInfo,
    primary_attack: bool,
) -> (attack: Option<AttackObj>)
    ensures
        attack == attack_made(item.item_type, *player, index),
{
    match item.item_type {
        ItemType::ShortSword => if index.is_some() {
            Some(
                AttackObj::Slash(Slash::new(player, index, player.angle, &floor.floor, primary_attack)),
            )
        } else {
            None
        },
        ItemType::WizardsDagger => if index.is_some() {
            Some(AttackObj::Stab(Stab::new(player, index, player.angle, &floor.floor, primary_attack)))
        } else {
            None
        },
        ItemType::WizardGlove => if player.spells.len() == 0 {
            None
        } else {
            match player.spells[0] {
                crate::player::Spell::BlindingLight => Some(
                    AttackObj::BlindingLight(
                        BlindingLight::new(
                            player,
                            index,
                            player.angle,
                            &floor.floor,
                            primary_attack,
                        ),
                    ),
                ),
                crate::player::Spell::MagicMissile => if index.is_some() {
                    Some(
                        AttackObj::MagicMissile(
                            MagicMissile::new(
                                player,
                                index,
                                player.angle,
                                &floor.floor,
                                primary_attack,
                            ),
                        ),
                    )
                } else {
                    None
                },
            }
        },
        ItemType::ThrowingKnife => if index.is_some() {
            Some(
                AttackObj::ThrowingKnife(
                    ThrownKnife::new(player, index, player.angle, &floor.floor, primary_attack),
                ),
            )
        } else {
            None
        },
        ItemType::Potion(_) => None,
        ItemType::Gold(_) => None,
    }
}

/// The item in the slot that an attack is made from, after the attack: a
/// stack of throwing knives has one knife less.
pub open spec fn spent(item: ItemInfo) -> ItemInfo {
    if item.item_type is ThrowingKnife {
        ItemInfo {
            stack_count: match item.stack_count {
                Some(n) => Some((n - 1) as u8),
                None => None,
            },
            ..item
        }
    } else {
        item
    }
}

/// Whether an attack can be made with `item`: throwing knives have to be
/// left in the stack.
pub open spec fn usable(item: ItemInfo) -> bool {
    item.item_type is ThrowingKnife ==> item.stack_count is Some && item.stack_count->0 > 0
}

/// The item in the slot that `player` attacks from.
pub open spec fn wielded(player: Player, is_primary: bool) -> Option<ItemInfo> {
    if is_primary {
        player.inventory.primary_item
    } else {
        player.inventory.secondary_item
    }
}

/// The attack that `player` starts in this frame from the given slot, if
/// any: the cooldown of the slot has to be over, the slot has to hold an item
/// that can be used, an attack has to go with the item, and the player has
/// to have the mana that the attack costs.
pub open spec fn attack_started(player: Player, index: Option<usize>, is_primary: bool) -> Option<
    AttackObj,
> {
    let cooldown = if is_primary {
        player.primary_cooldown
    } else {
        player.secondary_cooldown
    };
    if cooldown != 0 {
        None
    } else {
        match wielded(player, is_primary) {
            Some(item) => if !usable(item) {
                None
            } else {
                match attack_made(item.item_type, player, index) {
                    Some(attack) => if player.mp.points >= attack.mana_cost_spec() {
                        Some(attack)
                    } else {
                        None
                    },
                    None => None,
                }
            },
            None => None,
        }
    }
}

/// The player once it has tried to attack from the given slot. A knife
/// leaves the stack as soon as the slot is ready, whether or not the throw
/// comes about. Where an attack is started, the player pays its mana, the
/// slot gets its cooldown, and the attack's effect on its maker takes place.
#[verifier::opaque]
pub open spec fn attacked(before: Player, index: Option<usize>, floor: &Floor, is_primary: bool) -> Player {
    let cooldown = if is_primary {
        before.primary_cooldown
    } else {
        before.secondary_cooldown
    };
    let slot = wielded(before, is_primary);
    if cooldown != 0 || slot is None || !usable(slot->0) {
        before
    } else {
        let used = Some(spent(slot->0));
        let armed = crate::player::Player {
            inventory: crate::player::PlayerInventory {
                primary_item: if is_primary {
                    used
                } else {
                    before.inventory.primary_item
                },
                secondary_item: if is_primary {
                    before.inventory.secondary_item
                } else {
                    used
                },
                ..before.inventory
            },
            ..before
        };
        match attack_started(before, index, is_primary) {
            Some(attack) => {
                let paid = crate::player::Player {
                    mp: crate::player::PointInfo {
                        points: (before.mp.points - attack.mana_cost_spec()) as u16,
                        ..before.mp
                    },
                    primary_cooldown: if is_primary {
                        attack.cooldown_spec()
                    } else {
                        before.primary_cooldown
                    },
                    secondary_cooldown: if is_primary {
                        before.secondary_cooldown
                    } else {
                        attack.cooldown_spec()
                    },
                    ..armed
                };
                match attack {
                    AttackObj::Stab(obj) => lunged(paid, obj.angle.step_spec(PLAYER_SIZE as int), floor),
                    AttackObj::ThrowingKnife(obj) => lunged(
                        paid,
                        obj.movement_angle.step_spec(PLAYER_SIZE as int),
                        floor,
                    ),
                    AttackObj::MagicMissile(obj) => lunged(paid, obj.angle.step_spec(-1500), floor),
                    _ => paid,
                }
            },
            None => armed,
        }
    }
}

/// The attacks in flight after `player` has tried to attack from the given
/// slot.
pub open spec fn with_attack(attacks: Seq<AttackObj>, player: Player, index: Option<usize>, is_primary: bool) -> Seq<
    AttackObj,
> {
    match attack_started(player, index, is_primary) {
        Some(attack) => attacks.push(attack),
        None => attacks,
    }
}

/// Lets `player` attack from the primary or the secondary slot.
pub fn player_attack(
    player: &mut Player,
    index: Option<usize>,
    attacks: &mut Vec<AttackObj>,
    floor: &FloorInfo,
    is_primary: bool,
)
    ensures
        *final(player) == attacked(*old(player), index, &floor.floor, is_primary),
        final(attacks)@ == with_attack(old(attacks)@, *old(player), index, is_primary),
{
    reveal(attacked);
    let cooldown = if is_primary {
        player.primary_cooldown
    } else {
        player.secondary_cooldown
    };
    if cooldown != 0 {
        return ;
    }
    let slot = if is_primary {
        player.inventory.primary_item
    } else {
        player.inventory.secondary_item
    };
    let item = match slot {
        Some(item) => item,
        None => {
            return ;
        },
    };
    let mut used = item;
    match item.item_type {
        ItemType::ThrowingKnife => {
            match item.stack_count {
                Some(n) => {
                    if n > 0 {
                        used.stack_count = Some(n - 1);
                    } else {
                        return ;
                    }
                },
                None => {
                    return ;
                },
            }
        },
        _ => {},
    }
    let attack = attack_with_item(item, player, index, floor, is_primary);
    if is_primary {
        player.inventory.primary_item = Some(used);
    } else {
        player.inventory.secondary_item = Some(used);
    }
    match attack {
        Some(attack) => {
            if player.mp.points >= attack.mana_cost() {
                player.mp.points = player.mp.points - attack.mana_cost();
            } else {
                return ;
            }
            if is_primary {
                player.primary_cooldown = attack.cooldown();
            } else {
                player.secondary_cooldown = attack.cooldown();
            }
            attack.side_effects(player, &floor.floor);
            attacks.push(attack);
        },
        None => {},
    }
}

/// No attack changes anything of a floor but its monsters and its tiles.
pub proof fn lemma_attack_keeps_rooms(attack: AttackObj, next: AttackObj, before: World, after: World, done: bool)
    requires
        attack.updated(next, before, after, done),
    ensures
        before.floor.same_but_monsters_and_floor(after.floor),
{
}

/// A run of attacks changes nothing of a floor but its monsters and its
/// tiles.
pub proof fn lemma_attacks_keep_rooms(
    attacks: Seq<AttackObj>,
    results: Seq<(AttackObj, bool)>,
    trace: Seq<World>,
    n: int,
)
    requires
        0 <= n <= attacks.len(),
        attacks_ran(attacks, results, trace, n),
    ensures
        trace[0].floor.same_but_monsters_and_floor(trace[n].floor),
    decreases n,
{
    if n > 0 {
        assert(attacks_ran(attacks, results.take(n - 1), trace.take(n), n - 1)) by {
            assert forall|k: int| 0 <= k < n - 1 implies (#[trigger] attacks[k]).updated(
                results.take(n - 1)[k].0,
                trace.take(n)[k],
                trace.take(n)[k + 1],
                results.take(n - 1)[k].1,
            ) by {
                assert(attacks[k].updated(results[k].0, trace[k], trace[k + 1], results[k].1));
            }
        }
        lemma_attacks_keep_rooms(attacks, results.take(n - 1), trace.take(n), n - 1);
        assert(attacks[n - 1].updated(
            results[n - 1].0,
            trace[n - 1],
            trace[n - 1 + 1],
            results[n - 1].1,
        ));
        lemma_attack_keeps_rooms(
            attacks[n - 1],
            results[n - 1].0,
            trace[n - 1],
            trace[n],
            results[n - 1].1,
        );
    }
}

/// The hit points that a monster has left.
pub open spec fn monster_health(m: MonsterView) -> u16 {
    match m {
        MonsterView::SmallRat(rat) => rat.health,
        MonsterView::GreenSlime(slime) => slime.health,
    }
}

/// The life of a stab. A stab in its last frame is over and hurts nobody.
/// Any other stab that touches a monster takes `STAB_DAMAGE` hit points from
/// the first one that it touches, as far as the monster has them, leaves
/// every other monster as it was, and is over, whether or not a wall is in
/// its way. One that touches no monster leaves all monsters as they were; it
/// is over if it has run into a wall, and goes on otherwise.
pub proof fn lemma_stab_lifecycle(stab: Stab, after: Stab, floor: FloorInfo, floor_after: FloorInfo, done: bool)
    requires
        stab.updated(after, floor, floor_after, done),
    ensures
        monster_views(floor_after.monsters@).len() == monster_views(floor.monsters@).len(),
        stab.time >= STAB_LIFETIME - 1 ==> done && monster_views(floor_after.monsters@)
            == monster_views(floor.monsters@),
        stab.hits_wall(&floor.floor) ==> done,
        stab.victim(monster_views(floor.monsters@)) is None ==> monster_views(
            floor_after.monsters@,
        ) == monster_views(floor.monsters@),
        stab.victim(monster_views(floor.monsters@)) is None && stab.time < STAB_LIFETIME - 1
            && !stab.hits_wall(&floor.floor) ==> !done,
        stab.victim(monster_views(floor.monsters@)) matches Some(k) ==> done && 0 <= k
            < floor.monsters@.len() && monster_health(monster_views(floor_after.monsters@)[k])
            == crate::player::sub_u16(
            monster_health(monster_views(floor.monsters@)[k]),
            STAB_DAMAGE as int,
        ) && monster_damaged_by(monster_views(floor_after.monsters@)[k]).contains(
            stab.player_index,
        ) && forall|j: int|
            0 <= j < floor.monsters@.len() && j != k ==> #[trigger] monster_views(
                floor_after.monsters@,
            )[j] == monster_views(floor.monsters@)[j],
        stab.time < STAB_LIFETIME - 1 ==> stab.victim(monster_views(floor.monsters@)) == first_hit(
            monster_views(floor.monsters@),
            stab.stepped().polygon(),
            0,
        ),
{
    let monsters = monster_views(floor.monsters@);
    reveal(crate::monsters::small_rat::rat_damaged);
    reveal(crate::monsters::slime::slime_damaged);
    if stab.victim(monsters) is Some {
        let k = stab.victim(monsters)->0;
        lemma_first_hit_in_range(monsters, stab.stepped().polygon(), 0);
        crate::monsters::small_rat::lemma_member_added(
            monster_damaged_by(monsters[k]),
            stab.player_index,
        );
    }
}

/// The monster that `first_hit` finds is one of the monsters, at or after
/// the place from which it looked.
pub proof fn lemma_first_hit_in_range(monsters: Seq<MonsterView>, poly: Polygon, from: int)
    ensures
        first_hit(monsters, poly, from) matches Some(k) ==> from <= k < monsters.len() && 0 <= k
            && poly.collides(monster_polygon(monsters[k]), 0, 0),
    decreases monsters.len() - from,
{
    if 0 <= from < monsters.len() && !poly.collides(monster_polygon(monsters[from]), 0, 0) {
        lemma_first_hit_in_range(monsters, poly, from + 1);
    }
}

} // verus!
