//! The green slime: it keeps its distance and throws slimeballs.

use vstd::prelude::*;
use crate::attacks::{Attack, AttackObj, Slimeball};
use crate::enchantments::{
    is_regen_due, regen_due, tick, ticked, Effect, Enchantable, Enchantment, EnchantmentKind,
    EnchantmentSet,
};
use crate::map::{
    in_bounds, index_of, is_listed, listed, tile_index, lemma_index_round_trip, find_path_spec, tile_center, tile_corner, tile_of, tile_to_world, tile_to_world_center, tile_at,
    Floor, MAP_HEIGHT_TILES, MAP_WIDTH_TILES, TILE_UNITS,
};
use crate::math::{
    aabb_collision, easy_polygon, easy_polygon_spec, get_angle, Angle, AsPolygon, IVec2, Polygon, Vec2,
};
use crate::monsters::small_rat::{
    find_seen, first_seen, insert_member, target_polygon, target_shape, with_member, Target,
};
use crate::monsters::AttackMode;
use crate::player::{damage_player, damaged_player, sub_u16, DamageInfo, Player};
use crate::rng::{next_state, output, Rng};

verus! {

/// Edge length of a slime, in fixed-point units.
pub const SIZE: i32 = 14000;

/// Half the edge length of a slime, in fixed-point units.
pub const HALF_SIZE: i32 = 7000;

pub const MAX_HEALTH: u16 = 15;

/// Hit points that a slime takes from a player it touches.
pub const DAMAGE: u16 = 10;

/// Experience that a dead slime gives to each player who hurt it.
pub const DEFAULT_XP: u32 = 2;

/// How far a slime sees, in tiles.
pub const SIGHT: i32 = 10;

/// How far a passive slime moves in a frame, in fixed-point units.
pub const CREEP_SPEED: i32 = 1000;

/// How far a fleeing slime moves in a frame, in fixed-point units.
pub const FLEE_SPEED: i32 = 1300;

/// The distance from a player, in fixed-point units, within which a slime
/// flees and beyond which it looks for a place to flee to: four tiles.
pub const FLEE_RANGE: i32 = 100000;

/// Frames before the first slimeball of a new slime.
pub const FIRST_ATTACK_DELAY: u8 = 30;

#[derive(Clone, Debug)]
pub struct GreenSlime {
    pub health: u16,
    pub pos: Vec2,
    pub attack_mode: AttackMode,
    /// The waypoints of the path being walked and the place of the next one.
    pub current_path: Option<(Vec<Vec2>, usize)>,
    pub enchantments: EnchantmentSet,
    /// All the players who have damaged me, each once.
    pub damaged_by: Vec<usize>,
    pub current_target: Option<Target>,
    pub time_til_attack: u8,
}

/// The state of a slime as plain values.
pub struct GreenSlimeView {
    pub health: u16,
    pub pos: Vec2,
    pub attack_mode: AttackMode,
    pub current_path: Option<(Seq<Vec2>, usize)>,
    pub enchantments: EnchantmentSet,
    pub damaged_by: Seq<usize>,
    pub current_target: Option<Target>,
    pub time_til_attack: u8,
}

impl View for GreenSlime {
    type V = GreenSlimeView;

    open spec fn view(&self) -> GreenSlimeView {
        GreenSlimeView {
            health: self.health,
            pos: self.pos,
            attack_mode: self.attack_mode,
            current_path: match self.current_path {
                Some((path, i)) => Some((path@, i)),
                None => None,
            },
            enchantments: self.enchantments,
            damaged_by: self.damaged_by@,
            current_target: self.current_target,
            time_til_attack: self.time_til_attack,
        }
    }
}

/// The square that a slime at `pos` occupies.
pub open spec fn slime_polygon(pos: Vec2) -> Polygon {
    easy_polygon_spec(
        pos.moved(HALF_SIZE as int, HALF_SIZE as int),
        Vec2 { x: HALF_SIZE, y: HALF_SIZE },
        Angle::zero_spec(),
    )
}

impl AsPolygon for GreenSlime {
    open spec fn polygon(&self) -> Polygon {
        slime_polygon(self.pos)
    }

    fn as_polygon(&self) -> (p: Polygon) {
        let half = Vec2 { x: HALF_SIZE, y: HALF_SIZE };
        easy_polygon(self.pos.plus(half), half, Angle::zero())
    }
}

/// The slime after a hit: it loses the hit points, every enchantment on it
/// loses half of its frames, it is thrown back along the direction of the
/// hit by its size times the share of its full health that the damage is,
/// unless a wall is in the way, and it remembers the player.
#[verifier::opaque]
pub open spec fn slime_damaged(
    slime: GreenSlimeView,
    damage: u16,
    direction: Angle,
    player: usize,
    floor: &Floor,
) -> GreenSlimeView {
    let change = direction.step_spec(
        crate::monsters::knockback_length(SIZE as int, damage, MAX_HEALTH),
    );
    GreenSlimeView {
        health: sub_u16(slime.health, damage as int),
        enchantments: slime.enchantments.all_halved(),
        pos: if floor.blocked(slime_polygon(slime.pos), change.x as int, change.y as int) {
            slime.pos
        } else {
            slime.pos.moved(change.x as int, change.y as int)
        },
        damaged_by: with_member(slime.damaged_by, player),
        ..slime
    }
}

/// The slime once `enchantment` is put on it, for 300 frames and over any
/// of the same kind. Stickiness does nothing to a slime. No enchantment
/// takes hit points from it.
#[verifier::opaque]
pub open spec fn slime_enchanted(slime: GreenSlimeView, enchantment: Enchantment) -> GreenSlimeView {
    match enchantment.kind {
        EnchantmentKind::Sticky => slime,
        _ => GreenSlimeView {
            enchantments: slime.enchantments.with(
                enchantment.kind,
                Some(Effect { enchantment, frames_left: 300 }),
            ),
            ..slime
        },
    }
}

/// The slime after one frame of enchantments. Regeneration heals one hit
/// point when it is due and the slime is below full health; every
/// enchantment loses a frame; a slime that carries blindness is passive,
/// without target or path.
#[verifier::opaque]
pub open spec fn slime_enchantments_updated(slime: GreenSlimeView) -> GreenSlimeView {
    let heal = match slime.enchantments.regenerating {
        Some(e) => slime.health < MAX_HEALTH && regen_due(e.enchantment.strength, e.frames_left),
        None => false,
    };
    let blind = slime.enchantments.blinded is Some;
    GreenSlimeView {
        health: if heal {
            (slime.health + 1) as u16
        } else {
            slime.health
        },
        enchantments: slime.enchantments.all_ticked(),
        attack_mode: if blind {
            AttackMode::Passive
        } else {
            slime.attack_mode
        },
        current_target: if blind {
            None
        } else {
            slime.current_target
        },
        current_path: if blind {
            None
        } else {
            slime.current_path
        },
        ..slime
    }
}

impl Enchantable for GreenSlime {
    fn apply_enchantment(&mut self, enchantment: Enchantment)
        ensures
            final(self)@ == slime_enchanted(old(self)@, enchantment),
    {
        reveal(slime_enchanted);
        match enchantment.kind {
            // I am a slime, lol
            EnchantmentKind::Sticky => {},
            _ => {
                self.enchantments.insert(enchantment.kind, Effect { enchantment, frames_left: 300 });
            },
        }
    }

    fn update_enchantments(&mut self)
        ensures
            final(self)@ == slime_enchantments_updated(old(self)@),
    {
        reveal(slime_enchantments_updated);
        if self.enchantments.blinded.is_some() {
            self.attack_mode = AttackMode::Passive;
            self.current_target = None;
            self.current_path = None;
        }
        match self.enchantments.regenerating {
            Some(e) => {
                if self.health < MAX_HEALTH {
                    // Heal every half second
                    if is_regen_due(e.enchantment.strength, e.frames_left) {
                        self.health = self.health + 1;
                    }
                }
            },
            None => {},
        }
        self.enchantments.blinded = tick(self.enchantments.blinded);
        self.enchantments.sticky = tick(self.enchantments.sticky);
        self.enchantments.regenerating = tick(self.enchantments.regenerating);
    }
}

/// What damage a slime at `pos` does to one player: a player whom the
/// slime touches is hit for `DAMAGE` from the slime's side.
#[verifier::opaque]
pub open spec fn slime_burns(pos: Vec2, player: Player, floor: &Floor) -> Player {
    if player.polygon().collides(slime_polygon(pos), 0, 0) {
        damaged_player(player, DAMAGE, crate::monsters::angle_between(player.pos, pos), floor)
    } else {
        player
    }
}

/// The slime after a step along its path. With a path, it puts its center
/// on the next waypoint when that is within reach of one step and else
/// moves toward it; a path that is walked to its end is dropped with the
/// target. Without a path it plans one to its target, counting doors as
/// open; where no way leads there it drops the target.
#[verifier::opaque]
pub open spec fn slime_step(slime: GreenSlimeView, floor: &Floor, speed: int) -> GreenSlimeView {
    match slime.current_path {
        Some((path, i)) => if i < path.len() {
            let waypoint = path[i as int];
            let center = slime_polygon(slime.pos).center;
            if speed >= center.distance_spec(waypoint) {
                GreenSlimeView {
                    pos: waypoint.moved(-(HALF_SIZE as int), -(HALF_SIZE as int)),
                    current_path: Some((path, (i + 1) as usize)),
                    ..slime
                }
            } else {
                let change = crate::monsters::angle_between(waypoint, center).step_spec(speed);
                GreenSlimeView { pos: slime.pos.moved(change.x as int, change.y as int), ..slime }
            }
        } else {
            GreenSlimeView { current_path: None, current_target: None, ..slime }
        },
        None => match slime.current_target {
            Some(Target::Pos(pos)) => match find_path_spec(
                floor,
                tile_of(slime_polygon(slime.pos).center),
                tile_of(target_polygon(Target::Pos(pos), Seq::empty())->0.center),
                false,
                true,
            ) {
                Some(path) => GreenSlimeView { current_path: Some((path, 0usize)), ..slime },
                None => GreenSlimeView { current_path: None, current_target: None, ..slime },
            },
            _ => slime,
        },
    }
}

/// The place of the player nearest to `center` among the first `n`
/// players; of two that are equally near, the later one.
pub open spec fn nearest_player(players: Seq<Player>, center: Vec2, n: int) -> Option<usize>
    decreases n,
{
    if n <= 0 || n > players.len() {
        None
    } else {
        match nearest_player(players, center, n - 1) {
            Some(best) => if players[best as int].polygon().center.distance_spec(center) < players[n
                - 1].polygon().center.distance_spec(center) {
                Some(best)
            } else {
                Some((n - 1) as usize)
            },
            None => Some((n - 1) as usize),
        }
    }
}

/// Whether a slime may flee to the tile `o` from a player at `from`: the
/// tile does not stop movement, or it is a door, and its middle is at least
/// `FLEE_RANGE` away.
pub open spec fn is_refuge(o: crate::map::Object, from: Vec2) -> bool {
    (!o.collidable() || o.door is Some) && tile_center(o.pos).distance_spec(from) >= FLEE_RANGE
}

/// The places, among the first `n` tiles, to which a slime may flee from
/// a player at `from`.
pub open spec fn refuges(floor: &Floor, from: Vec2, n: int) -> Seq<usize>
    decreases n,
{
    if n <= 0 || n > floor.objects@.len() {
        Seq::empty()
    } else if is_refuge(floor.objects@[n - 1], from) {
        refuges(floor, from, n - 1).push((n - 1) as usize)
    } else {
        refuges(floor, from, n - 1)
    }
}

/// The places, among the first `n` tiles, of the tiles that do not stop
/// movement.
pub open spec fn open_tiles(floor: &Floor, n: int) -> Seq<usize>
    decreases n,
{
    if n <= 0 || n > floor.objects@.len() {
        Seq::empty()
    } else if !floor.objects@[n - 1].collidable() {
        open_tiles(floor, n - 1).push((n - 1) as usize)
    } else {
        open_tiles(floor, n - 1)
    }
}

/// The tile at the place drawn from `places`, if there is any.
#[verifier::opaque]
pub open spec fn drawn_place(places: Seq<usize>, state: u64) -> Option<usize> {
    if places.len() == 0 {
        None
    } else {
        Some(places[(places.len() * output(state)) / 0x1_0000_0000])
    }
}

/// A hunted slime after one frame of movement, and the state of the
/// generator. With a player within `FLEE_RANGE` of it, the slime draws a
/// refuge at random and makes it its target; where there is none it keeps
/// the target it has. Then it plans or steps.
#[verifier::opaque]
pub open spec fn slime_attacking(slime: GreenSlimeView, players: Seq<Player>, floor: &Floor, state: u64) -> (
    GreenSlimeView,
    u64,
) {
    let center = slime_polygon(slime.pos).center;
    match nearest_player(players, center, players.len() as int) {
        Some(p) => {
            let from = players[p as int].polygon().center;
            if from.distance_spec(center) <= FLEE_RANGE {
                let aimed = match drawn_place(
                    refuges(floor, from, floor.objects@.len() as int),
                    state,
                ) {
                    Some(place) => GreenSlimeView {
                        current_target: Some(
                            Target::Pos(tile_corner(floor.objects@[place as int].pos)),
                        ),
                        ..slime
                    },
                    None => slime,
                };
                (slime_step(aimed, floor, FLEE_SPEED as int), next_state(state))
            } else {
                (slime_step(slime, floor, FLEE_SPEED as int), state)
            }
        },
        None => (slime_step(slime, floor, FLEE_SPEED as int), state),
    }
}

/// A passive slime after one frame of movement, and the state of the
/// generator. A player in sight makes it hunt, and it does not move in that
/// frame. Otherwise, without a target, it draws at random a tile that does
/// not stop movement and makes for its middle; then it plans or steps.
#[verifier::opaque]
pub open spec fn slime_passive(slime: GreenSlimeView, players: Seq<Player>, floor: &Floor, state: u64) -> (
    GreenSlimeView,
    u64,
) {
    let visible = floor.visible_from(tile_of(slime_polygon(slime.pos).center), SIGHT as int);
    if first_seen(players, visible, false, 0) is Some {
        (GreenSlimeView { attack_mode: AttackMode::Attacking, ..slime }, state)
    } else if slime.current_target is None {
        let aimed = match drawn_place(open_tiles(floor, floor.objects@.len() as int), state) {
            Some(place) => GreenSlimeView {
                current_target: Some(Target::Pos(tile_center(floor.objects@[place as int].pos))),
                ..slime
            },
            None => slime,
        };
        (slime_step(aimed, floor, CREEP_SPEED as int), next_state(state))
    } else {
        (slime_step(slime, floor, CREEP_SPEED as int), state)
    }
}

/// The slime after one frame of movement, and the state of the generator.
#[verifier::opaque]
pub open spec fn slime_moved(slime: GreenSlimeView, players: Seq<Player>, floor: &Floor, state: u64) -> (
    GreenSlimeView,
    u64,
) {
    match slime.attack_mode {
        AttackMode::Passive => slime_passive(slime, players, floor, state),
        AttackMode::Attacking => slime_attacking(slime, players, floor, state),
    }
}

/// The places of the tiles to which a slime may flee from a player at
/// `from`.
pub fn find_refuges(floor: &Floor, from: Vec2) -> (places: Vec<usize>)
    ensures
        places@ == refuges(floor, from, floor.objects@.len() as int),
        forall|k: int| 0 <= k < places@.len() ==> (#[trigger] places@[k]) < floor.objects@.len(),
{
    let mut places: Vec<usize> = Vec::new();
    let mut i: usize = 0;
    while i < floor.objects.len()
        invariant
            i <= floor.objects@.len(),
            places@ == refuges(floor, from, i as int),
            forall|k: int| 0 <= k < places@.len() ==> (#[trigger] places@[k]) < i,
        decreases floor.objects@.len() - i,
    {
        let o = &floor.objects[i];
        if (!o.is_collidable() || o.door.is_some()) && tile_to_world_center(o.pos).distance(from)
            >= FLEE_RANGE as u64 {
            places.push(i);
        }
        i = i + 1;
    }
    places
}

/// The places of the tiles that do not stop movement.
pub fn find_open_tiles(floor: &Floor) -> (places: Vec<usize>)
    ensures
        places@ == open_tiles(floor, floor.objects@.len() as int),
        forall|k: int| 0 <= k < places@.len() ==> (#[trigger] places@[k]) < floor.objects@.len(),
{
    let mut places: Vec<usize> = Vec::new();
    let mut i: usize = 0;
    while i < floor.objects.len()
        invariant
            i <= floor.objects@.len(),
            places@ == open_tiles(floor, i as int),
            forall|k: int| 0 <= k < places@.len() ==> (#[trigger] places@[k]) < i,
        decreases floor.objects@.len() - i,
    {
        if !floor.objects[i].is_collidable() {
            places.push(i);
        }
        i = i + 1;
    }
    places
}

/// The place of the player nearest to `center`.
pub fn find_nearest_player(players: &Vec<Player>, center: Vec2) -> (r: Option<usize>)
    ensures
        r == nearest_player(players@, center, players@.len() as int),
        r matches Some(i) ==> i < players@.len(),
{
    let mut best: Option<usize> = None;
    let mut best_distance: u64 = 0;
    let mut i: usize = 0;
    while i < players.len()
        invariant
            i <= players@.len(),
            best == nearest_player(players@, center, i as int),
            best matches Some(b) ==> b < i && best_distance
                == players@[b as int].polygon().center.distance_spec(center),
        decreases players@.len() - i,
    {
        let d = players[i].center().distance(center);
        match best {
            Some(b) => {
                if !(best_distance < d) {
                    best = Some(i);
                    best_distance = d;
                }
            },
            None => {
                best = Some(i);
                best_distance = d;
            },
        }
        i = i + 1;
    }
    best
}

/// Draws one of `places` at random.
pub fn draw_place(places: &Vec<usize>, rng: &mut Rng) -> (r: Option<usize>)
    ensures
        r == drawn_place(places@, old(rng).state),
        final(rng).state == next_state(old(rng).state),
        r matches Some(p) ==> exists|k: int| 0 <= k < places@.len() && places@[k] == p,
{
    reveal(drawn_place);
    match rng.choose_index(places.len()) {
        Some(k) => Some(places[k]),
        None => None,
    }
}

impl GreenSlime {
    /// A slime at `pos` in full health, passive, that waits
    /// `FIRST_ATTACK_DELAY` frames before its first slimeball.
    pub fn new(pos: Vec2) -> (slime: GreenSlime)
        ensures
            slime@ == (GreenSlimeView {
                pos,
                health: MAX_HEALTH,
                attack_mode: AttackMode::Passive,
                current_path: None,
                current_target: None,
                enchantments: EnchantmentSet { blinded: None, sticky: None, regenerating: None },
                damaged_by: Seq::empty(),
                time_til_attack: FIRST_ATTACK_DELAY,
            }),
    {
        GreenSlime {
            pos,
            health: MAX_HEALTH,
            attack_mode: AttackMode::Passive,
            current_path: None,
            current_target: None,
            enchantments: EnchantmentSet::new(),
            damaged_by: Vec::new(),
            time_til_attack: FIRST_ATTACK_DELAY,
        }
    }

    pub fn pos(&self) -> (v: Vec2)
        ensures
            v == self.pos,
    {
        self.pos
    }

    pub fn size(&self) -> (v: Vec2)
        ensures
            v == (Vec2 { x: SIZE, y: SIZE }),
    {
        Vec2 { x: SIZE, y: SIZE }
    }

    /// The sprite that shows the slime.
    pub fn texture(&self) -> (name: &'static str)
        ensures
            name@ == "green_slime.webp"@,
    {
        "green_slime.webp"
    }

    pub fn living(&self) -> (r: bool)
        ensures
            r == (self.health > 0),
    {
        self.health > 0
    }

    /// The players to give XP to, and how much XP to give
    pub fn xp(&self) -> (r: (&Vec<usize>, u32))
        ensures
            r.0 == &self.damaged_by,
            r.1 == DEFAULT_XP,
    {
        (&self.damaged_by, DEFAULT_XP)
    }

    pub fn take_damage(&mut self, damage_info: DamageInfo, floor: &Floor)
        ensures
            final(self)@ == slime_damaged(
                old(self)@,
                damage_info.damage,
                damage_info.direction,
                damage_info.player,
                floor,
            ),
    {
        reveal(slime_damaged);
        self.health = self.health.saturating_sub(damage_info.damage);
        self.enchantments.halve();
        let length: i32 = crate::monsters::knockback(SIZE, damage_info.damage, MAX_HEALTH);
        let change = damage_info.direction.step(length);
        if !floor.collision(self, change) {
            self.pos = self.pos.plus(change);
        }
        insert_member(&mut self.damaged_by, damage_info.player);
    }

    pub fn damage_players(&mut self, players: &mut Vec<Player>, floor: &Floor)
        ensures
            *final(self) == *old(self),
            final(players)@.len() == old(players)@.len(),
            forall|i: int|
                0 <= i < old(players)@.len() ==> #[trigger] final(players)@[i] == slime_burns(
                    old(self).pos,
                    old(players)@[i],
                    floor,
                ),
    {
        reveal(slime_burns);
        let mut i: usize = 0;
        while i < players.len()
            invariant
                i <= players@.len(),
                *self == *old(self),
                players@.len() == old(players)@.len(),
                forall|j: int|
                    0 <= j < i ==> #[trigger] players@[j] == slime_burns(
                        self.pos,
                        old(players)@[j],
                        floor,
                    ),
                forall|j: int| i <= j < players@.len() ==> players@[j] == old(players)@[j],
            decreases players@.len() - i,
        {
            proof {
                reveal(slime_burns);
            }
            if aabb_collision(&players[i], self, Vec2 { x: 0, y: 0 }) {
                let damage_direction = get_angle(players[i].pos, self.pos);
                proof {
                    crate::monsters::lemma_angle_between(
                        players@[i as int].pos,
                        self.pos,
                        damage_direction,
                    );
                }
                damage_player(&mut players[i], DAMAGE, damage_direction, floor);
            }
            i = i + 1;
        }
    }

    pub fn step_pathfinding(&mut self, floor: &Floor, speed: i32)
        requires
            floor.wf(),
        ensures
            final(self)@ == slime_step(old(self)@, floor, speed as int),
    {
        reveal(slime_step);
        match self.current_path.take() {
            Some((path, i)) => {
                if i < path.len() {
                    let waypoint = path[i];
                    let center = self.center();
                    let distance_to_target = center.distance(waypoint);
                    if speed >= 0 && speed as u64 >= distance_to_target {
                        self.pos = waypoint.minus(Vec2 { x: HALF_SIZE, y: HALF_SIZE });
                        self.current_path = Some((path, i + 1));
                    } else {
                        let angle = get_angle(waypoint, center);
                        proof {
                            crate::monsters::lemma_angle_between(waypoint, center, angle);
                        }
                        self.pos = self.pos.plus(angle.step(speed));
                        self.current_path = Some((path, i));
                    }
                } else {
                    // Finished following path
                    self.current_target = None;
                }
            },
            None => {
                match self.current_target {
                    Some(Target::Pos(pos)) => {
                        let players: Vec<Player> = Vec::new();
                        let goal = target_shape(Target::Pos(pos), &players).unwrap();
                        match floor.find_path(self, &goal, false, true, None) {
                            Some(path) => {
                                self.current_path = Some((path, 0));
                            },
                            None => {
                                self.current_target = None;
                            },
                        }
                    },
                    _ => {},
                }
            },
        }
    }

    pub fn attack_mode(&mut self, players: &Vec<Player>, floor: &Floor, rng: &mut Rng)
        requires
            floor.wf(),
        ensures
            (final(self)@, final(rng).state) == slime_attacking(
                old(self)@,
                players@,
                floor,
                old(rng).state,
            ),
    {
        reveal(slime_attacking);
        // Check how far the closest player is
        let center = self.center();
        match find_nearest_player(players, center) {
            Some(p) => {
                let from = players[p].center();
                if from.distance(center) <= FLEE_RANGE as u64 {
                    // If the player is within 4 tiles, flee
                    let valid_objs = find_refuges(floor, from);
                    match draw_place(&valid_objs, rng) {
                        Some(place) => {
                            self.current_target = Some(
                                Target::Pos(tile_to_world(floor.objects[place].pos)),
                            );
                        },
                        None => {},
                    }
                }
            },
            None => {},
        }
        self.step_pathfinding(floor, FLEE_SPEED);
    }

    pub fn passive_mode(&mut self, players: &Vec<Player>, floor: &Floor, rng: &mut Rng)
        requires
            floor.wf(),
        ensures
            (final(self)@, final(rng).state) == slime_passive(
                old(self)@,
                players@,
                floor,
                old(rng).state,
            ),
    {
        reveal(slime_passive);
        // Check if any players are in my visible range
        let visible_objects = floor.visible_objects(self, Some(SIGHT));
        if find_seen(players, &visible_objects, false).is_some() {
            self.attack_mode = AttackMode::Attacking;
            return ;
        }
        if self.current_target.is_none() {
            // Choose a random tile that can be walked on
            let valid_rooms = find_open_tiles(floor);
            match draw_place(&valid_rooms, rng) {
                Some(place) => {
                    self.current_target = Some(
                        Target::Pos(tile_to_world_center(floor.objects[place].pos)),
                    );
                },
                None => {},
            }
        }
        self.step_pathfinding(floor, CREEP_SPEED);
    }

    pub fn movement(&mut self, players: &Vec<Player>, floor: &Floor, rng: &mut Rng)
        requires
            floor.wf(),
        ensures
            (final(self)@, final(rng).state) == slime_moved(
                old(self)@,
                players@,
                floor,
                old(rng).state,
            ),
    {
        reveal(slime_moved);
        match self.attack_mode {
            AttackMode::Passive => self.passive_mode(players, floor, rng),
            AttackMode::Attacking => self.attack_mode(players, floor, rng),
        }
    }
}

/// Frames that a slime waits after throwing slimeballs.
pub const ATTACK_DELAY: u8 = 80;

/// The slimeballs that a slime with its center at `center` throws at the
/// first `n` players: one at each player who stands on a tile that
/// `visible` lists, aimed at the player's center.
pub open spec fn slimeballs(players: Seq<Player>, visible: Seq<usize>, center: Vec2, n: int) -> Seq<
    AttackObj,
>
    decreases n,
{
    if n <= 0 || n > players.len() {
        Seq::empty()
    } else {
        let target = players[n - 1].polygon().center;
        let tile = tile_of(target);
        if in_bounds(tile) && listed(visible, index_of(tile)) {
            slimeballs(players, visible, center, n - 1).push(
                AttackObj::Slimeball(
                    Slimeball {
                        pos: center,
                        angle: crate::monsters::angle_between(target, center),
                        time: 0,
                    },
                ),
            )
        } else {
            slimeballs(players, visible, center, n - 1)
        }
    }
}

/// The slime after the attack phase of one frame, and the slimeballs that
/// it throws. The slime counts down; at zero it throws a slimeball at every
/// player in sight and then waits `ATTACK_DELAY` frames. With nobody in
/// sight it stays ready.
#[verifier::opaque]
pub open spec fn slime_attacks(slime: GreenSlimeView, players: Seq<Player>, floor: &Floor) -> (
    GreenSlimeView,
    Seq<AttackObj>,
) {
    let waited = GreenSlimeView {
        time_til_attack: if slime.time_til_attack == 0 {
            0u8
        } else {
            (slime.time_til_attack - 1) as u8
        },
        ..slime
    };
    if waited.time_til_attack > 0 {
        (waited, Seq::empty())
    } else {
        let center = slime_polygon(slime.pos).center;
        let thrown = slimeballs(
            players,
            floor.visible_from(tile_of(center), SIGHT as int),
            center,
            players.len() as int,
        );
        (
            GreenSlimeView {
                time_til_attack: if thrown.len() > 0 {
                    ATTACK_DELAY
                } else {
                    0u8
                },
                ..waited
            },
            thrown,
        )
    }
}

impl GreenSlime {
    /// Throw a slimeball at all visible players
    pub fn attack(&mut self, players: &Vec<Player>, floor: &Floor, attacks: &mut Vec<AttackObj>)
        requires
            floor.wf(),
        ensures
            final(self)@ == slime_attacks(old(self)@, players@, floor).0,
            final(attacks)@ == old(attacks)@ + slime_attacks(old(self)@, players@, floor).1,
    {
        reveal(slime_attacks);
        self.time_til_attack = self.time_til_attack.saturating_sub(1);
        if self.time_til_attack > 0 {
            assert(attacks@ =~= old(attacks)@ + Seq::<AttackObj>::empty());
            return ;
        }
        let visible_objects = floor.visible_objects(self, Some(SIGHT));
        let center = self.center();
        let mut i: usize = 0;
        let mut thrown: bool = false;
        while i < players.len()
            invariant
                i <= players@.len(),
                floor.wf(),
                center == slime_polygon(self.pos).center,
                attacks@ == old(attacks)@ + slimeballs(players@, visible_objects@, center, i as int),
                thrown == (slimeballs(players@, visible_objects@, center, i as int).len() > 0),
            decreases players@.len() - i,
        {
            let target = players[i].center();
            let tile = crate::map::world_to_tile(target);
            let seen = match tile_index(tile) {
                Some(place) => {
                    proof {
                        lemma_index_round_trip(tile);
                    }
                    is_listed(&visible_objects, place)
                },
                None => false,
            };
            if seen {
                let angle = get_angle(target, center);
                proof {
                    crate::monsters::lemma_angle_between(target, center, angle);
                }
                let slimeball = Slimeball::new(self, None, angle, floor, true);
                let ghost before = attacks@;
                attacks.push(AttackObj::Slimeball(slimeball));
                thrown = true;
                assert(attacks@ =~= old(attacks)@ + slimeballs(
                    players@,
                    visible_objects@,
                    center,
                    i + 1,
                ));
            }
            i = i + 1;
        }
        if thrown {
            self.time_til_attack = ATTACK_DELAY;
        }
    }
}

} // verus!
