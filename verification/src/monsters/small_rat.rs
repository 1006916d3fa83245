//! The small rat: it wanders until it sees a player, then hunts that player
//! and lunges when it is close.

use vstd::prelude::*;
use crate::enchantments::{
    is_regen_due, regen_due, tick, ticked, Effect, Enchantable, Enchantment, EnchantmentKind,
    EnchantmentSet,
};
use crate::map::{
    find_path_spec, is_listed, listed, tile_corner, tile_index, tile_of, tile_polygon, tile_to_world,
    world_to_tile, in_bounds, index_of, tile_at, lemma_index_round_trip, Floor, HALF_TILE_UNITS,
    TILE_UNITS,
};
use crate::math::{
    aabb_collision, clamp_i32, div_trunc, easy_polygon, easy_polygon_spec, get_angle, normalized,
    Angle, AsPolygon, Polygon, Vec2,
};
use crate::monsters::AttackMode;
use crate::player::{damage_player, damaged_player, DamageInfo, Player, sub_u16};
use crate::rng::{next_state, output, scale_to_range, Rng};

verus! {

/// Edge length of a rat, in fixed-point units.
pub const SIZE: i32 = 18000;

/// Half the edge length of a rat, in fixed-point units.
pub const HALF_SIZE: i32 = 9000;

pub const MAX_HEALTH: u16 = 22;

/// Hit points that a rat takes from a player it touches.
pub const DAMAGE: u16 = 10;

/// Experience that a dead rat gives to each player who hurt it.
pub const DEFAULT_XP: u32 = 1;

/// How far a rat sees, in tiles.
pub const SIGHT: i32 = 8;

/// How far a wandering rat moves in a frame, in fixed-point units.
pub const WANDER_SPEED: i32 = 750;

/// How far a hunting rat moves in a frame, in fixed-point units.
pub const HUNT_SPEED: i32 = 1100;

/// How far a blinded rat moves in a frame, in fixed-point units.
pub const BLIND_SPEED: i32 = 1200;

/// What a monster is heading for.
#[derive(Clone, Copy, Debug, PartialEq, Eq, Structural)]
pub enum Target {
    /// The tile whose top left corner is at this position.
    Pos(Vec2),
    /// The player with this index.
    PlayerIndex(usize),
}

#[derive(Clone, Debug)]
pub struct SmallRat {
    pub health: u16,
    pub pos: Vec2,
    /// Thousandths of the rat's speed that it moves with.
    pub speed_mul: i32,
    pub attack_mode: AttackMode,
    pub time_spent_moving: u16,
    pub time_til_move: u16,
    /// The waypoints of the path being walked and the place of the next one.
    pub current_path: Option<(Vec<Vec2>, usize)>,
    pub enchantments: EnchantmentSet,
    /// All the players who have damaged me, each once.
    pub damaged_by: Vec<usize>,
    /// Gotta keep track of if the target moved, to reset the path
    pub current_target: Option<Target>,
}

/// The state of a rat as plain values.
pub struct SmallRatView {
    pub health: u16,
    pub pos: Vec2,
    pub speed_mul: i32,
    pub attack_mode: AttackMode,
    pub time_spent_moving: u16,
    pub time_til_move: u16,
    pub current_path: Option<(Seq<Vec2>, usize)>,
    pub enchantments: EnchantmentSet,
    pub damaged_by: Seq<usize>,
    pub current_target: Option<Target>,
}

impl View for SmallRat {
    type V = SmallRatView;

    open spec fn view(&self) -> SmallRatView {
        SmallRatView {
            health: self.health,
            pos: self.pos,
            speed_mul: self.speed_mul,
            attack_mode: self.attack_mode,
            time_spent_moving: self.time_spent_moving,
            time_til_move: self.time_til_move,
            current_path: match self.current_path {
                Some((path, i)) => Some((path@, i)),
                None => None,
            },
            enchantments: self.enchantments,
            damaged_by: self.damaged_by@,
            current_target: self.current_target,
        }
    }
}

/// The square that a rat at `pos` occupies.
pub open spec fn rat_polygon(pos: Vec2) -> Polygon {
    easy_polygon_spec(
        pos.moved(HALF_SIZE as int, HALF_SIZE as int),
        Vec2 { x: HALF_SIZE, y: HALF_SIZE },
        Angle::zero_spec(),
    )
}

impl AsPolygon for SmallRat {
    open spec fn polygon(&self) -> Polygon {
        rat_polygon(self.pos)
    }

    fn as_polygon(&self) -> (p: Polygon) {
        let half = Vec2 { x: HALF_SIZE, y: HALF_SIZE };
        easy_polygon(self.pos.plus(half), half, Angle::zero())
    }
}

/// `list` with `i` put at its end, unless it holds `i` already.
pub open spec fn with_member(list: Seq<usize>, i: usize) -> Seq<usize> {
    if list.contains(i) {
        list
    } else {
        list.push(i)
    }
}

/// A list holds a member once the member is added to it.
pub proof fn lemma_member_added(list: Seq<usize>, i: usize)
    ensures
        with_member(list, i).contains(i),
{
    if !list.contains(i) {
        assert(list.push(i)[list.len() as int] == i);
    }
}

/// A list in which nothing occurs twice stays such a list when a member
/// is added, and then holds the member.
pub proof fn lemma_with_member(list: Seq<usize>, i: usize)
    requires
        list.no_duplicates(),
    ensures
        with_member(list, i).no_duplicates(),
        with_member(list, i).contains(i),
        forall|j: usize| list.contains(j) ==> with_member(list, i).contains(j),
        forall|j: usize| with_member(list, i).contains(j) ==> list.contains(j) || j == i,
{
    if !list.contains(i) {
        let after = list.push(i);
        assert(after[list.len() as int] == i);
        assert forall|a: int, b: int| 0 <= a < after.len() && 0 <= b < after.len() && a != b implies after[a]
            != after[b] by {
            if a < list.len() && b < list.len() {
                assert(list[a] != list[b]);
            } else if a < list.len() {
                assert(list.contains(list[a]));
            } else {
                assert(list.contains(list[b]));
            }
        }
        assert forall|j: usize| list.contains(j) implies after.contains(j) by {
            let k = choose|k: int| 0 <= k < list.len() && list[k] == j;
            assert(after[k] == j);
        }
        assert forall|j: usize| after.contains(j) implies list.contains(j) || j == i by {
            let k = choose|k: int| 0 <= k < after.len() && after[k] == j;
            if k < list.len() {
                assert(list[k] == j);
            }
        }
    }
}

/// Puts `i` at the end of `list`, unless it holds `i` already.
pub fn insert_member(list: &mut Vec<usize>, i: usize)
    ensures
        final(list)@ == with_member(old(list)@, i),
{
    let mut k: usize = 0;
    while k < list.len()
        invariant
            k <= list@.len(),
            *list == *old(list),
            forall|j: int| 0 <= j < k ==> list@[j] != i,
        decreases list@.len() - k,
    {
        if list[k] == i {
            return ;
        }
        k = k + 1;
    }
    list.push(i);
}

/// The rat after a hit: it loses the hit points, every enchantment on it
/// loses half of its frames, it is thrown back along the direction of the
/// hit by its size times the share of its full health that the damage is,
/// unless a wall is in the way, and it remembers the player.
#[verifier::opaque]
pub open spec fn rat_damaged(
    rat: SmallRatView,
    damage: u16,
    direction: Angle,
    player: usize,
    floor: &Floor,
) -> SmallRatView {
    let change = direction.step_spec(
        crate::monsters::knockback_length(SIZE as int, damage, MAX_HEALTH),
    );
    SmallRatView {
        health: sub_u16(rat.health, damage as int),
        enchantments: rat.enchantments.all_halved(),
        pos: if floor.blocked(rat_polygon(rat.pos), change.x as int, change.y as int) {
            rat.pos
        } else {
            rat.pos.moved(change.x as int, change.y as int)
        },
        damaged_by: with_member(rat.damaged_by, player),
        ..rat
    }
}

/// The rat once `enchantment` is put on it, for 240 frames and over any
/// of the same kind. Blinding makes it forget where it was going and wait 50
/// frames; stickiness halves its speed.
#[verifier::opaque]
pub open spec fn rat_enchanted(rat: SmallRatView, enchantment: Enchantment) -> SmallRatView {
    let with_effect = rat.enchantments.with(
        enchantment.kind,
        Some(Effect { enchantment, frames_left: 240 }),
    );
    match enchantment.kind {
        EnchantmentKind::Blinded => SmallRatView {
            current_target: None,
            current_path: None,
            time_til_move: 50,
            enchantments: with_effect,
            ..rat
        },
        EnchantmentKind::Sticky => SmallRatView {
            speed_mul: 500,
            enchantments: with_effect,
            ..rat
        },
        EnchantmentKind::Regenerating => SmallRatView { enchantments: with_effect, ..rat },
    }
}

/// The rat after one frame of enchantments. Regeneration heals one hit
/// point when it is due and the rat is below full health. Every enchantment
/// loses a frame. When blindness ends the rat is passive again, without a
/// target, and waits 10 frames; when stickiness ends it is back at full
/// speed.
#[verifier::opaque]
pub open spec fn rat_enchantments_updated(rat: SmallRatView) -> SmallRatView {
    let heal = match rat.enchantments.regenerating {
        Some(e) => rat.health < MAX_HEALTH && regen_due(e.enchantment.strength, e.frames_left),
        None => false,
    };
    let blind_ends = rat.enchantments.blinded is Some && ticked(rat.enchantments.blinded) is None;
    let sticky_ends = rat.enchantments.sticky is Some && ticked(rat.enchantments.sticky) is None;
    SmallRatView {
        health: if heal {
            (rat.health + 1) as u16
        } else {
            rat.health
        },
        enchantments: rat.enchantments.all_ticked(),
        attack_mode: if blind_ends {
            AttackMode::Passive
        } else {
            rat.attack_mode
        },
        time_til_move: if blind_ends {
            10
        } else {
            rat.time_til_move
        },
        time_spent_moving: if blind_ends {
            0
        } else {
            rat.time_spent_moving
        },
        current_target: if blind_ends {
            None
        } else {
            rat.current_target
        },
        current_path: if blind_ends {
            None
        } else {
            rat.current_path
        },
        speed_mul: if sticky_ends {
            1000
        } else {
            rat.speed_mul
        },
        ..rat
    }
}

impl Enchantable for SmallRat {
    fn apply_enchantment(&mut self, enchantment: Enchantment)
        ensures
            final(self)@ == rat_enchanted(old(self)@, enchantment),
    {
        reveal(rat_enchanted);
        match enchantment.kind {
            EnchantmentKind::Blinded => {
                self.current_target = None;
                self.current_path = None;
                self.time_til_move = 50;
            },
            EnchantmentKind::Sticky => {
                self.speed_mul = 500;
            },
            EnchantmentKind::Regenerating => {},
        }
        self.enchantments.insert(enchantment.kind, Effect { frames_left: 240, enchantment });
    }

    fn update_enchantments(&mut self)
        ensures
            final(self)@ == rat_enchantments_updated(old(self)@),
    {
        reveal(rat_enchantments_updated);
        match self.enchantments.regenerating {
            Some(e) => {
                if self.health < MAX_HEALTH {
                    // Heal every half second
                    if is_regen_due(e.enchantment.strength, e.frames_left) {
                        self.health = self.health + 1;
                    }
                }
            },
            None => {},
        }
        let blind_ends = self.enchantments.blinded.is_some() && tick(
            self.enchantments.blinded,
        ).is_none();
        let sticky_ends = self.enchantments.sticky.is_some() && tick(
            self.enchantments.sticky,
        ).is_none();
        self.enchantments.blinded = tick(self.enchantments.blinded);
        self.enchantments.sticky = tick(self.enchantments.sticky);
        self.enchantments.regenerating = tick(self.enchantments.regenerating);
        if blind_ends {
            self.attack_mode = AttackMode::Passive;
            self.time_til_move = 10;
            self.time_spent_moving = 0;
            self.current_target = None;
            self.current_path = None;
        }
        if sticky_ends {
            self.speed_mul = 1000;
        }
    }
}

/// What damage a rat at `pos` does to one player: a player whom the rat
/// touches is hit for `DAMAGE` from the rat's side.
#[verifier::opaque]
pub open spec fn rat_bites(pos: Vec2, player: Player, floor: &Floor) -> Player {
    if player.polygon().collides(rat_polygon(pos), 0, 0) {
        damaged_player(
            player,
            DAMAGE,
            crate::monsters::angle_between(player.pos, pos),
            floor,
        )
    } else {
        player
    }
}

impl SmallRat {
    /// A rat at `pos` in full health, passive, that starts to move after a
    /// random time of less than 180 frames.
    pub fn new(pos: Vec2, rng: &mut Rng) -> (rat: SmallRat)
        ensures
            final(rng).state == next_state(old(rng).state),
            rat@ == (SmallRatView {
                pos,
                health: MAX_HEALTH,
                attack_mode: AttackMode::Passive,
                time_til_move: scale_to_range(0, 180, output(old(rng).state)) as u16,
                time_spent_moving: 0,
                current_path: None,
                current_target: None,
                enchantments: EnchantmentSet { blinded: None, sticky: None, regenerating: None },
                damaged_by: Seq::empty(),
                speed_mul: 1000,
            }),
    {
        let wait = rng.gen_range(0, 180);
        SmallRat {
            pos,
            health: MAX_HEALTH,
            attack_mode: AttackMode::Passive,
            time_til_move: wait as u16,
            time_spent_moving: 0,
            current_path: None,
            current_target: None,
            enchantments: EnchantmentSet::new(),
            damaged_by: Vec::new(),
            speed_mul: 1000,
        }
    }

    pub fn pos(&self) -> (v: Vec2)
        ensures
            v == self.pos,
    {
        self.pos
    }

    /// The size at which the rat is drawn: a tenth larger while it hunts.
    pub fn size(&self) -> (v: Vec2)
        ensures
            v.x == v.y,
            v.x == (if self.attack_mode is Attacking {
                19800
            } else {
                SIZE
            }),
    {
        match self.attack_mode {
            AttackMode::Attacking => Vec2 { x: 19800, y: 19800 },
            _ => Vec2 { x: SIZE, y: SIZE },
        }
    }

    /// The sprite that shows the rat.
    pub fn texture(&self) -> (name: &'static str)
        ensures
            name@ == "small_mouse.webp"@,
    {
        "small_mouse.webp"
    }

    pub fn flip_x(&self) -> (r: bool)
        ensures
            r,
    {
        true
    }

    pub fn living(&self) -> (r: bool)
        ensures
            r == (self.health > 0),
    {
        self.health > 0
    }

    /// The players to give XP to, and how much XP to give
    pub fn xp(&self) -> (r: (&Vec<usize>, u32))
        ensures
            r.0 == &self.damaged_by,
            r.1 == DEFAULT_XP,
    {
        (&self.damaged_by, DEFAULT_XP)
    }

    pub fn take_damage(&mut self, damage_info: DamageInfo, floor: &Floor)
        ensures
            final(self)@ == rat_damaged(
                old(self)@,
                damage_info.damage,
                damage_info.direction,
                damage_info.player,
                floor,
            ),
    {
        reveal(rat_damaged);
        self.health = self.health.saturating_sub(damage_info.damage);
        self.enchantments.halve();
        let length: i32 = crate::monsters::knockback(SIZE, damage_info.damage, MAX_HEALTH);
        let change = damage_info.direction.step(length);
        if !floor.collision(self, change) {
            self.pos = self.pos.plus(change);
        }
        insert_member(&mut self.damaged_by, damage_info.player);
    }

    pub fn damage_players(&mut self, players: &mut Vec<Player>, floor: &Floor)
        ensures
            *final(self) == *old(self),
            final(players)@.len() == old(players)@.len(),
            forall|i: int|
                0 <= i < old(players)@.len() ==> #[trigger] final(players)@[i] == rat_bites(
                    old(self).pos,
                    old(players)@[i],
                    floor,
                ),
    {
        reveal(rat_bites);
        let mut i: usize = 0;
        while i < players.len()
            invariant
                i <= players@.len(),
                *self == *old(self),
                players@.len() == old(players)@.len(),
                forall|j: int|
                    0 <= j < i ==> #[trigger] players@[j] == rat_bites(
                        self.pos,
                        old(players)@[j],
                        floor,
                    ),
                forall|j: int| i <= j < players@.len() ==> players@[j] == old(players)@[j],
            decreases players@.len() - i,
        {
            proof {
                reveal(rat_bites);
            }
            if aabb_collision(&players[i], self, Vec2 { x: 0, y: 0 }) {
                let damage_direction = get_angle(players[i].pos, self.pos);
                proof {
                    crate::monsters::lemma_angle_between(
                        players@[i as int].pos,
                        self.pos,
                        damage_direction,
                    );
                }
                damage_player(&mut players[i], DAMAGE, damage_direction, floor);
            }
            i = i + 1;
        }
    }
}

/// Half the edge length of the square that stands for a target tile, in
/// fixed-point units.
pub const GOAL_HALF: i32 = 12000;

/// The shape that a path to `target` is planned to: a square on the target
/// tile, or the player aimed at. A player index that names no player gives
/// no shape.
pub open spec fn target_polygon(target: Target, players: Seq<Player>) -> Option<Polygon> {
    match target {
        Target::Pos(pos) => Some(
            easy_polygon_spec(
                pos.moved(GOAL_HALF as int, GOAL_HALF as int),
                Vec2 { x: GOAL_HALF, y: GOAL_HALF },
                Angle::zero_spec(),
            ),
        ),
        Target::PlayerIndex(i) => if i < players.len() {
            Some(players[i as int].polygon())
        } else {
            None
        },
    }
}

/// The shape that a path to `target` is planned to.
pub fn target_shape(target: Target, players: &Vec<Player>) -> (shape: Option<Polygon>)
    ensures
        shape == target_polygon(target, players@),
{
    match target {
        Target::Pos(pos) => {
            let half = Vec2 { x: GOAL_HALF, y: GOAL_HALF };
            Some(easy_polygon(pos.plus(half), half, Angle::zero()))
        },
        Target::PlayerIndex(i) => if i < players.len() {
            Some(players[i].as_polygon())
        } else {
            None
        },
    }
}

/// How far a monster moves in a frame at `speed` when it moves with
/// `speed_mul` thousandths of its speed.
pub open spec fn paced(speed: int, speed_mul: int) -> int {
    clamp_i32(div_trunc(speed * speed_mul, 1000))
}

/// How far a monster moves in a frame at `speed` when it moves with
/// `speed_mul` thousandths of its speed.
pub fn pace(speed: i32, speed_mul: i32) -> (r: i32)
    ensures
        r == paced(speed as int, speed_mul as int),
{
    assert(-0x4000_0000_0000_0000 <= speed * speed_mul <= 0x4000_0000_0000_0000) by (nonlinear_arith)
        requires
            -0x8000_0000 <= speed < 0x8000_0000,
            -0x8000_0000 <= speed_mul < 0x8000_0000,
    ;
    crate::math::saturate(crate::math::trunc_div(speed as i64 * speed_mul as i64, 1000))
}

/// The rat after a step along its path. With the next waypoint within
/// reach of one step the rat puts its center on it and goes on to the one
/// after; every second waypoint the path is dropped unless the waypoint lies
/// on the tile of the target, so that the way is planned afresh. With the
/// waypoint farther away the rat moves toward it, and gives up path and
/// target if something is in the way. With no waypoint left the rat has
/// arrived: it forgets path and target.
#[verifier::opaque]
pub open spec fn rat_follow(rat: SmallRatView, players: Seq<Player>, floor: &Floor, speed: int) -> SmallRatView {
    match rat.current_path {
        None => rat,
        Some((path, i)) => if i < path.len() {
            let waypoint = path[i as int];
            let center = rat_polygon(rat.pos).center;
            if speed >= center.distance_spec(waypoint) {
                let arrived = SmallRatView {
                    pos: waypoint.moved(-(HALF_SIZE as int), -(HALF_SIZE as int)),
                    current_path: Some((path, (i + 1) as usize)),
                    ..rat
                };
                if (i + 1) % 2 == 0 {
                    let on_target = match rat.current_target {
                        Some(target) => match target_polygon(target, players) {
                            Some(goal) => tile_of(goal.center) == tile_of(waypoint),
                            None => false,
                        },
                        None => false,
                    };
                    if on_target {
                        arrived
                    } else {
                        SmallRatView { current_path: None, ..arrived }
                    }
                } else {
                    arrived
                }
            } else {
                let change = crate::monsters::angle_between(waypoint, center).step_spec(
                    paced(speed, rat.speed_mul as int),
                );
                if floor.blocked(rat_polygon(rat.pos), change.x as int, change.y as int) {
                    SmallRatView { current_path: None, current_target: None, ..rat }
                } else {
                    SmallRatView { pos: rat.pos.moved(change.x as int, change.y as int), ..rat }
                }
            }
        } else {
            SmallRatView { current_path: None, current_target: None, time_til_move: 0, ..rat }
        },
    }
}

/// The rat after planning and stepping, and whether it is in want of a new
/// target. A rat that is still waiting does nothing. A rat without a path
/// plans one to its target, through doors, and only over the tiles that it
/// sees where `only_visible` holds; where it has no target, or no way leads
/// there, it asks for a new target and does not move. A rat with a path
/// follows it.
#[verifier::opaque]
pub open spec fn rat_step(
    rat: SmallRatView,
    players: Seq<Player>,
    floor: &Floor,
    speed: int,
    only_visible: bool,
) -> (SmallRatView, bool) {
    if rat.time_til_move != 0 {
        (rat, false)
    } else if rat.current_path is None {
        match rat.current_target {
            Some(target) => match target_polygon(target, players) {
                Some(goal) => match find_path_spec(
                    floor,
                    tile_of(rat_polygon(rat.pos).center),
                    tile_of(goal.center),
                    only_visible,
                    true,
                ) {
                    Some(path) => (
                        rat_follow(
                            SmallRatView { current_path: Some((path, 0usize)), ..rat },
                            players,
                            floor,
                            speed,
                        ),
                        false,
                    ),
                    None => (rat, true),
                },
                None => (rat, true),
            },
            None => (rat, true),
        }
    } else {
        (rat_follow(rat, players, floor, speed), false)
    }
}

/// The first player from `from` on who is alive, where `alive_only` holds,
/// and stands on a tile that `visible` lists.
pub open spec fn first_seen(
    players: Seq<Player>,
    visible: Seq<usize>,
    alive_only: bool,
    from: int,
) -> Option<usize>
    decreases players.len() - from,
{
    if from < 0 || from >= players.len() {
        None
    } else {
        let tile = tile_of(players[from].polygon().center);
        if (!alive_only || players[from].hp.points != 0) && in_bounds(tile) && listed(
            visible,
            index_of(tile),
        ) {
            Some(from as usize)
        } else {
            first_seen(players, visible, alive_only, from + 1)
        }
    }
}

/// The first player who is alive, where `alive_only` holds, and stands on a
/// tile that `visible` lists.
pub fn find_seen(players: &Vec<Player>, visible: &Vec<usize>, alive_only: bool) -> (r: Option<usize>)
    ensures
        r == first_seen(players@, visible@, alive_only, 0),
        r matches Some(i) ==> i < players@.len(),
{
    let mut i: usize = 0;
    while i < players.len()
        invariant
            i <= players@.len(),
            first_seen(players@, visible@, alive_only, 0) == first_seen(
                players@,
                visible@,
                alive_only,
                i as int,
            ),
        decreases players@.len() - i,
    {
        if !alive_only || players[i].hp.points != 0 {
            let tile = crate::map::pos_to_tile(&players[i]);
            match tile_index(tile) {
                Some(place) => {
                    proof {
                        lemma_index_round_trip(tile);
                    }
                    if is_listed(visible, place) {
                        return Some(i);
                    }
                },
                None => {},
            }
        }
        i = i + 1;
    }
    None
}

/// The target of a wandering rat: the tile at a place drawn from `visible`,
/// or the rat's own position where it sees nothing. One number is drawn.
#[verifier::opaque]
pub open spec fn wander_target(visible: Seq<usize>, own: Vec2, state: u64) -> Target {
    if visible.len() == 0 {
        Target::Pos(own)
    } else {
        Target::Pos(
            tile_corner(tile_at(visible[(visible.len() * output(state)) / 0x1_0000_0000] as int)),
        )
    }
}

/// Picks the target of a wandering rat.
pub fn pick_wander_target(visible: &Vec<usize>, own: Vec2, rng: &mut Rng) -> (target: Target)
    requires
        forall|k: int|
            0 <= k < visible@.len() ==> (#[trigger] visible@[k]) < crate::map::MAP_WIDTH_TILES
                * crate::map::MAP_HEIGHT_TILES,
    ensures
        target == wander_target(visible@, own, old(rng).state),
        final(rng).state == next_state(old(rng).state),
{
    reveal(wander_target);
    match rng.choose_index(visible.len()) {
        Some(k) => {
            let place = visible[k];
            let tile = crate::math::IVec2 {
                x: (place % crate::map::MAP_WIDTH_TILES) as i32,
                y: (place / crate::map::MAP_WIDTH_TILES) as i32,
            };
            Target::Pos(tile_to_world(tile))
        },
        None => Target::Pos(own),
    }
}

/// A passive rat after one frame, and the state of the generator. The rat
/// counts down its wait. When the wait is over it looks around; without a
/// target it picks a tile that it sees, at random; it plans and steps; where
/// planning fails it picks another tile. A living player whom it saw before
/// the step makes it hunt: the first such player becomes the target, and the
/// rat waits 25 frames.
#[verifier::opaque]
pub open spec fn rat_passive(rat: SmallRatView, players: Seq<Player>, floor: &Floor, state: u64) -> (
    SmallRatView,
    u64,
) {
    let waited = SmallRatView { time_til_move: sub_u16(rat.time_til_move, 1), ..rat };
    if waited.time_til_move > 0 {
        (waited, state)
    } else {
        let visible = floor.visible_from(tile_of(rat_polygon(rat.pos).center), SIGHT as int);
        let (aimed, state1) = if waited.current_target is None {
            (
                SmallRatView {
                    current_target: Some(wander_target(visible, rat.pos, state)),
                    current_path: None,
                    ..waited
                },
                next_state(state),
            )
        } else {
            (waited, state)
        };
        let (stepped, needs) = rat_step(aimed, players, floor, WANDER_SPEED as int, true);
        let (settled, state2) = if needs {
            (
                SmallRatView {
                    current_target: Some(wander_target(visible, stepped.pos, state1)),
                    ..stepped
                },
                next_state(state1),
            )
        } else {
            (stepped, state1)
        };
        match first_seen(players, visible, true, 0) {
            Some(i) => (
                SmallRatView {
                    time_til_move: 25,
                    time_spent_moving: 0,
                    attack_mode: AttackMode::Attacking,
                    current_target: Some(Target::PlayerIndex(i)),
                    current_path: None,
                    ..settled
                },
                state2,
            ),
            None => (settled, state2),
        }
    }
}

/// The target that a hunting rat turns to when planning fails, and the mode
/// that goes with it: the target it has, if it has one; else the first
/// player it sees; else its own place, in passive mode.
pub open spec fn hunt_target(rat: SmallRatView, players: Seq<Player>, floor: &Floor) -> (
    Target,
    AttackMode,
) {
    match rat.current_target {
        Some(target) => (target, rat.attack_mode),
        None => {
            let visible = floor.visible_from(tile_of(rat_polygon(rat.pos).center), SIGHT as int);
            match first_seen(players, visible, false, 0) {
                Some(i) => (Target::PlayerIndex(i), rat.attack_mode),
                None => (Target::Pos(rat_polygon(rat.pos).center), AttackMode::Passive),
            }
        },
    }
}

/// A hunting rat after one frame. The rat counts down its wait; when the
/// wait is over it plans and steps. Within one tile of the player it is
/// after it lunges: it jumps its own length toward the player, drops its
/// path and waits 45 frames. When that player has no hit points left the
/// rat is passive again, without a target.
#[verifier::opaque]
pub open spec fn rat_attacking(rat: SmallRatView, players: Seq<Player>, floor: &Floor) -> SmallRatView {
    let waited = SmallRatView { time_til_move: sub_u16(rat.time_til_move, 1), ..rat };
    if waited.time_til_move > 0 {
        waited
    } else {
        let (stepped, needs) = rat_step(waited, players, floor, HUNT_SPEED as int, false);
        let aimed = if needs {
            SmallRatView {
                current_target: Some(hunt_target(stepped, players, floor).0),
                attack_mode: hunt_target(stepped, players, floor).1,
                ..stepped
            }
        } else {
            stepped
        };
        match aimed.current_target {
            Some(Target::PlayerIndex(i)) => if i < players.len() {
                let player = players[i as int];
                let lunged = if player.polygon().center.distance_spec(
                    rat_polygon(aimed.pos).center,
                ) <= TILE_UNITS {
                    let jump = crate::monsters::angle_between(player.pos, aimed.pos).step_spec(
                        SIZE as int,
                    );
                    SmallRatView {
                        pos: aimed.pos.moved(jump.x as int, jump.y as int),
                        time_til_move: 45,
                        current_path: None,
                        ..aimed
                    }
                } else {
                    aimed
                };
                if player.hp.points == 0 {
                    SmallRatView {
                        attack_mode: AttackMode::Passive,
                        current_target: None,
                        ..lunged
                    }
                } else {
                    lunged
                }
            } else {
                aimed
            },
            _ => aimed,
        }
    }
}

/// A blinded rat after one frame, and the state of the generator. The rat
/// counts down its wait. Then, with a tile to stumble to, it moves toward
/// it, forgetting it once it is within its own length of it; where a wall is
/// in the way it backs off by one and a half steps, if there is room,
/// forgets the tile and waits 30 frames. Without a tile to stumble to it
/// draws one at random, up to two tiles away along each axis.
#[verifier::opaque]
pub open spec fn rat_blind(rat: SmallRatView, floor: &Floor, state: u64) -> (SmallRatView, u64) {
    if rat.time_til_move > 0 {
        (SmallRatView { time_til_move: (rat.time_til_move - 1) as u16, ..rat }, state)
    } else {
        match rat.current_target {
            Some(Target::Pos(pos)) => {
                let close = SmallRatView {
                    current_target: if pos.distance_spec(rat.pos) < SIZE {
                        None
                    } else {
                        rat.current_target
                    },
                    ..rat
                };
                let change = crate::monsters::angle_between(pos, rat.pos).step_spec(
                    paced(BLIND_SPEED as int, rat.speed_mul as int),
                );
                if !floor.blocked(rat_polygon(rat.pos), change.x as int, change.y as int) {
                    (SmallRatView { pos: rat.pos.moved(change.x as int, change.y as int), ..close }, state)
                } else {
                    let back = change.scaled_spec(-3, 2);
                    (
                        SmallRatView {
                            pos: if !floor.blocked(
                                rat_polygon(rat.pos),
                                back.x as int,
                                back.y as int,
                            ) {
                                rat.pos.moved(back.x as int, back.y as int)
                            } else {
                                rat.pos
                            },
                            current_target: None,
                            time_til_move: 30,
                            ..close
                        },
                        state,
                    )
                }
            },
            _ => {
                let dx = scale_to_range(-1000, 1000, output(state));
                let dy = scale_to_range(-1000, 1000, output(next_state(state)));
                (
                    SmallRatView {
                        current_target: Some(
                            Target::Pos(rat.pos.moved(dx * 50 + 4500, dy * 50 + 4500)),
                        ),
                        ..rat
                    },
                    next_state(next_state(state)),
                )
            },
        }
    }
}

/// The rat after one frame of movement, and the state of the generator:
/// blind stumbling while it is blinded, and otherwise what its mode asks
/// for.
#[verifier::opaque]
pub open spec fn rat_moved(rat: SmallRatView, players: Seq<Player>, floor: &Floor, state: u64) -> (
    SmallRatView,
    u64,
) {
    if rat.enchantments.blinded is Some {
        rat_blind(rat, floor, state)
    } else {
        match rat.attack_mode {
            AttackMode::Passive => rat_passive(rat, players, floor, state),
            AttackMode::Attacking => (rat_attacking(rat, players, floor), state),
        }
    }
}

impl SmallRat {
    fn follow_path(&mut self, players: &Vec<Player>, floor: &Floor, speed: i32)
        requires
            floor.wf(),
        ensures
            final(self)@ == rat_follow(old(self)@, players@, floor, speed as int),
    {
        reveal(rat_follow);
        match self.current_path.take() {
            None => {},
            Some((path, i)) => {
                if i < path.len() {
                    let waypoint = path[i];
                    let center = self.center();
                    let distance_to_target = center.distance(waypoint);
                    if speed >= 0 && speed as u64 >= distance_to_target {
                        self.pos = waypoint.minus(Vec2 { x: HALF_SIZE, y: HALF_SIZE });
                        let next = i + 1;
                        // On every even turn
                        if next % 2 == 0 {
                            // If our target moves, then change our path
                            let on_target = match self.current_target {
                                Some(target) => match target_shape(target, players) {
                                    Some(goal) => world_to_tile(goal.center) == world_to_tile(
                                        waypoint,
                                    ),
                                    None => false,
                                },
                                None => false,
                            };
                            if on_target {
                                self.current_path = Some((path, next));
                            }
                        } else {
                            self.current_path = Some((path, next));
                        }
                    } else {
                        let angle = get_angle(waypoint, center);
                        proof {
                            crate::monsters::lemma_angle_between(waypoint, center, angle);
                        }
                        let change = angle.step(pace(speed, self.speed_mul));
                        if floor.collision(self, change) {
                            // Only stop targetting when there is a door
                            self.current_target = None;
                        } else {
                            self.pos = self.pos.plus(change);
                            self.current_path = Some((path, i));
                        }
                    }
                } else {
                    // Finished following path
                    self.current_target = None;
                    self.time_til_move = 0;
                }
            },
        }
    }

    /// Plans, where there is no path, and steps along the path. Returns
    /// whether the rat is in want of a new target.
    pub fn step_pathfinding(
        &mut self,
        players: &Vec<Player>,
        floor: &Floor,
        speed: i32,
        only_visible: bool,
    ) -> (needs_target: bool)
        requires
            floor.wf(),
        ensures
            (final(self)@, needs_target) == rat_step(
                old(self)@,
                players@,
                floor,
                speed as int,
                only_visible,
            ),
    {
        reveal(rat_step);
        if self.time_til_move != 0 {
            return false;
        }
        if self.current_path.is_none() {
            let target = match self.current_target {
                Some(target) => target,
                None => {
                    return true;
                },
            };
            let goal = match target_shape(target, players) {
                Some(goal) => goal,
                None => {
                    return true;
                },
            };
            match floor.find_path(self, &goal, only_visible, true, Some(4)) {
                Some(path) => {
                    self.current_path = Some((path, 0));
                },
                None => {
                    return true;
                },
            }
        }
        self.follow_path(players, floor, speed);
        false
    }

    /// The rat just wanders around a lil in passive mode
    pub fn passive_mode(&mut self, players: &Vec<Player>, floor: &Floor, rng: &mut Rng)
        requires
            floor.wf(),
        ensures
            (final(self)@, final(rng).state) == rat_passive(
                old(self)@,
                players@,
                floor,
                old(rng).state,
            ),
    {
        reveal(rat_passive);
        self.time_til_move = self.time_til_move.saturating_sub(1);
        if self.time_til_move > 0 {
            return ;
        }
        let visible_objects = floor.visible_objects(self, Some(SIGHT));
        if self.current_target.is_none() {
            // Choose a random visible tile
            self.current_target = Some(pick_wander_target(&visible_objects, self.pos, rng));
            self.current_path = None;
        }
        if self.step_pathfinding(players, floor, WANDER_SPEED, true) {
            self.current_target = Some(pick_wander_target(&visible_objects, self.pos, rng));
        }
        // If a player is visible to the rat, attack them
        match find_seen(players, &visible_objects, true) {
            Some(i) => {
                self.time_til_move = 25;
                self.time_spent_moving = 0;
                self.attack_mode = AttackMode::Attacking;
                self.current_target = Some(Target::PlayerIndex(i));
                self.current_path = None;
            },
            None => {},
        }
    }

    pub fn attack_mode(&mut self, players: &Vec<Player>, floor: &Floor)
        requires
            floor.wf(),
        ensures
            final(self)@ == rat_attacking(old(self)@, players@, floor),
    {
        reveal(rat_attacking);
        self.time_til_move = self.time_til_move.saturating_sub(1);
        if self.time_til_move > 0 {
            return ;
        }
        if self.step_pathfinding(players, floor, HUNT_SPEED, false) {
            match self.current_target {
                Some(target) => {},
                None => {
                    let visible_objects = floor.visible_objects(self, Some(SIGHT));
                    match find_seen(players, &visible_objects, false) {
                        Some(index) => {
                            self.current_target = Some(Target::PlayerIndex(index));
                        },
                        None => {
                            // If there are no visible players, then just go back to passive mode
                            self.attack_mode = AttackMode::Passive;
                            self.current_target = Some(Target::Pos(self.center()));
                        },
                    }
                },
            }
        }
        match self.current_target {
            Some(Target::PlayerIndex(i)) => {
                if i < players.len() {
                    let target_player = &players[i];
                    let distance_from_target = target_player.center().distance(self.center());
                    // When the monster's within range of the player, "lunge" at them
                    if distance_from_target <= TILE_UNITS as u64 {
                        let angle = get_angle(target_player.pos, self.pos);
                        proof {
                            crate::monsters::lemma_angle_between(
                                target_player.pos,
                                self.pos,
                                angle,
                            );
                        }
                        self.pos = self.pos.plus(angle.step(SIZE));
                        self.time_til_move = 45;
                        self.current_path = None;
                    }
                    // If the player dies, go back to passive mode
                    if target_player.hp.points == 0 {
                        self.attack_mode = AttackMode::Passive;
                        self.current_target = None;
                    }
                }
            },
            _ => {},
        }
    }

    pub fn move_blindly(&mut self, floor: &Floor, rng: &mut Rng)
        ensures
            (final(self)@, final(rng).state) == rat_blind(old(self)@, floor, old(rng).state),
    {
        reveal(rat_blind);
        if self.time_til_move > 0 {
            self.time_til_move = self.time_til_move - 1;
            return ;
        }
        match self.current_target {
            Some(Target::Pos(pos)) => {
                let angle = get_angle(pos, self.pos);
                proof {
                    crate::monsters::lemma_angle_between(pos, self.pos, angle);
                }
                let change = angle.step(pace(BLIND_SPEED, self.speed_mul));
                if pos.distance(self.pos) < SIZE as u64 {
                    self.current_target = None;
                }
                if !floor.collision(self, change) {
                    self.pos = self.pos.plus(change);
                } else {
                    let back = change.scaled(-3, 2);
                    if !floor.collision(self, back) {
                        self.pos = self.pos.plus(back);
                    }
                    self.current_target = None;
                    self.time_til_move = 30;
                }
            },
            _ => {
                let dx = rng.gen_range(-1000, 1000);
                let dy = rng.gen_range(-1000, 1000);
                let target = Vec2 {
                    x: crate::math::saturate(dx as i64 * 50 + 4500 + self.pos.x as i64),
                    y: crate::math::saturate(dy as i64 * 50 + 4500 + self.pos.y as i64),
                };
                self.current_target = Some(Target::Pos(target));
            },
        }
    }

    pub fn movement(&mut self, players: &Vec<Player>, floor: &Floor, rng: &mut Rng)
        requires
            floor.wf(),
        ensures
            (final(self)@, final(rng).state) == rat_moved(
                old(self)@,
                players@,
                floor,
                old(rng).state,
            ),
    {
        reveal(rat_moved);
        if self.enchantments.contains_key(EnchantmentKind::Blinded) {
            self.move_blindly(floor, rng);
        } else {
            match self.attack_mode {
                AttackMode::Passive => self.passive_mode(players, floor, rng),
                AttackMode::Attacking => self.attack_mode(players, floor),
            }
        }
    }
}

} // verus!
