//! The monsters of the dungeon.

pub mod laws;
pub mod slime;
pub mod small_rat;

use vstd::prelude::*;
use crate::attacks::AttackObj;
use crate::enchantments::{Enchantable, Enchantment};
use crate::map::FloorInfo;
use crate::monsters::slime::slime_attacks;
use crate::map::Floor;
use crate::math::{normalized, Angle, AsPolygon, Polygon, Vec2};
use crate::monsters::slime::{
    slime_burns, slime_damaged, slime_enchanted, slime_enchantments_updated, slime_moved,
    slime_polygon, GreenSlime, GreenSlimeView,
};
use crate::monsters::small_rat::{
    rat_bites, rat_damaged, rat_enchanted, rat_enchantments_updated, rat_moved, rat_polygon,
    SmallRat, SmallRatView,
};
use crate::player::{DamageInfo, Player};
use crate::rng::{next_state, Rng};

verus! {

/// The direction in which `c` lies as seen from `e`.
pub open spec fn angle_between(c: Vec2, e: Vec2) -> Angle {
    Angle::direction_of(c.x - e.x, c.y - e.y)
}

/// An angle with the parts of the direction from `e` to `c` is that
/// direction.
pub proof fn lemma_angle_between(c: Vec2, e: Vec2, a: Angle)
    requires
        (a.cos_spec(), a.sin_spec()) == normalized(c.x - e.x, c.y - e.y),
    ensures
        a == angle_between(c, e),
{
    Angle::lemma_from_parts(a);
}

/// How far a hit for `damage` throws a monster of the given size back: the
/// size scaled by the share of `max_health` that the damage is.
pub open spec fn knockback_length(size: int, damage: u16, max_health: u16) -> int {
    crate::math::clamp_i32(size * damage / (max_health as int))
}

/// How far a hit for `damage` throws a monster of the given size back.
pub fn knockback(size: i32, damage: u16, max_health: u16) -> (length: i32)
    requires
        max_health > 0,
        size >= 0,
    ensures
        length == knockback_length(size as int, damage, max_health),
{
    assert(0 <= size * damage <= 0x7fff_ffff * 0xffff) by (nonlinear_arith)
        requires
            0 <= size <= 0x7fff_ffff,
            0 <= damage <= 0xffff,
    ;
    let raw: i64 = (size as i64 * damage as i64) / (max_health as i64);
    crate::math::saturate(raw)
}

/// Whether a monster leaves the players alone or is after one of them.
#[derive(Clone, Copy, Debug, PartialEq, Eq, Structural)]
pub enum AttackMode {
    Passive,
    Attacking,
}

/// The kinds of monster that a floor can be stocked with.
#[derive(Clone, Copy, Debug, PartialEq, Eq, Structural)]
pub enum MonsterKind {
    SmallRat,
    GreenSlime,
}

#[derive(Clone, Debug)]
pub enum MonsterObj {
    SmallRat(SmallRat),
    GreenSlime(GreenSlime),
}

/// The state of a monster as plain values.
pub enum MonsterView {
    SmallRat(SmallRatView),
    GreenSlime(GreenSlimeView),
}

impl View for MonsterObj {
    type V = MonsterView;

    open spec fn view(&self) -> MonsterView {
        match self {
            MonsterObj::SmallRat(obj) => MonsterView::SmallRat(obj@),
            MonsterObj::GreenSlime(obj) => MonsterView::GreenSlime(obj@),
        }
    }
}

/// The views of a list of monsters.
pub open spec fn monster_views(monsters: Seq<MonsterObj>) -> Seq<MonsterView> {
    Seq::new(monsters.len(), |i: int| monsters[i]@)
}

/// Where the monster is.
pub open spec fn monster_pos(m: MonsterView) -> Vec2 {
    match m {
        MonsterView::SmallRat(rat) => rat.pos,
        MonsterView::GreenSlime(slime) => slime.pos,
    }
}

/// The square that the monster occupies.
pub open spec fn monster_polygon(m: MonsterView) -> Polygon {
    match m {
        MonsterView::SmallRat(rat) => rat_polygon(rat.pos),
        MonsterView::GreenSlime(slime) => slime_polygon(slime.pos),
    }
}

/// Whether the monster has hit points left.
pub open spec fn monster_living(m: MonsterView) -> bool {
    match m {
        MonsterView::SmallRat(rat) => rat.health > 0,
        MonsterView::GreenSlime(slime) => slime.health > 0,
    }
}

/// The players who have hurt the monster.
pub open spec fn monster_damaged_by(m: MonsterView) -> Seq<usize> {
    match m {
        MonsterView::SmallRat(rat) => rat.damaged_by,
        MonsterView::GreenSlime(slime) => slime.damaged_by,
    }
}

/// The experience that the monster gives, when it dies, to each player who
/// has hurt it.
pub open spec fn monster_xp(m: MonsterView) -> u32 {
    match m {
        MonsterView::SmallRat(_) => crate::monsters::small_rat::DEFAULT_XP,
        MonsterView::GreenSlime(_) => crate::monsters::slime::DEFAULT_XP,
    }
}

/// The monster after a hit.
pub open spec fn monster_damaged(
    m: MonsterView,
    damage: u16,
    direction: Angle,
    player: usize,
    floor: &Floor,
) -> MonsterView {
    match m {
        MonsterView::SmallRat(rat) => MonsterView::SmallRat(
            rat_damaged(rat, damage, direction, player, floor),
        ),
        MonsterView::GreenSlime(slime) => MonsterView::GreenSlime(
            slime_damaged(slime, damage, direction, player, floor),
        ),
    }
}

/// The monster once `enchantment` is put on it.
pub open spec fn monster_enchanted(m: MonsterView, enchantment: Enchantment) -> MonsterView {
    match m {
        MonsterView::SmallRat(rat) => MonsterView::SmallRat(rat_enchanted(rat, enchantment)),
        MonsterView::GreenSlime(slime) => MonsterView::GreenSlime(
            slime_enchanted(slime, enchantment),
        ),
    }
}

/// The monster after one frame of enchantments.
pub open spec fn monster_enchantments_updated(m: MonsterView) -> MonsterView {
    match m {
        MonsterView::SmallRat(rat) => MonsterView::SmallRat(rat_enchantments_updated(rat)),
        MonsterView::GreenSlime(slime) => MonsterView::GreenSlime(
            slime_enchantments_updated(slime),
        ),
    }
}

/// The monster after one frame of movement, and the state of the
/// generator.
pub open spec fn monster_moved(m: MonsterView, players: Seq<Player>, floor: &Floor, state: u64) -> (
    MonsterView,
    u64,
) {
    match m {
        MonsterView::SmallRat(rat) => (
            MonsterView::SmallRat(rat_moved(rat, players, floor, state).0),
            rat_moved(rat, players, floor, state).1,
        ),
        MonsterView::GreenSlime(slime) => (
            MonsterView::GreenSlime(slime_moved(slime, players, floor, state).0),
            slime_moved(slime, players, floor, state).1,
        ),
    }
}

/// What the monster does to one player by touching.
pub open spec fn monster_bites(m: MonsterView, player: Player, floor: &Floor) -> Player {
    match m {
        MonsterView::SmallRat(rat) => rat_bites(rat.pos, player, floor),
        MonsterView::GreenSlime(slime) => slime_burns(slime.pos, player, floor),
    }
}

impl MonsterObj {
    /// A new monster of the given kind at `pos`.
    pub fn spawn(kind: MonsterKind, pos: Vec2, rng: &mut Rng) -> (m: MonsterObj)
        ensures
            monster_pos(m@) == pos,
            monster_living(m@),
            monster_damaged_by(m@).len() == 0,
            crate::monsters::laws::monster_sound(m@),
            kind is SmallRat ==> m is SmallRat && final(rng).state == next_state(old(rng).state),
            kind is GreenSlime ==> m is GreenSlime && final(rng).state == old(rng).state,
    {
        match kind {
            MonsterKind::SmallRat => MonsterObj::SmallRat(SmallRat::new(pos, rng)),
            MonsterKind::GreenSlime => MonsterObj::GreenSlime(GreenSlime::new(pos)),
        }
    }

    pub fn movement(&mut self, players: &Vec<Player>, floor: &Floor, rng: &mut Rng)
        requires
            floor.wf(),
        ensures
            (final(self)@, final(rng).state) == monster_moved(
                old(self)@,
                players@,
                floor,
                old(rng).state,
            ),
            crate::monsters::laws::monster_sound(old(self)@) ==> crate::monsters::laws::monster_sound(
                final(self)@,
            ),
    {
        proof {
            crate::monsters::laws::lemma_moved_keeps(self@, players@, floor, rng.state);
        }
        match self {
            MonsterObj::SmallRat(obj) => obj.movement(players, floor, rng),
            MonsterObj::GreenSlime(obj) => obj.movement(players, floor, rng),
        }
    }

    pub fn damage_players(&mut self, players: &mut Vec<Player>, floor: &Floor)
        ensures
            *final(self) == *old(self),
            final(players)@.len() == old(players)@.len(),
            forall|i: int|
                0 <= i < old(players)@.len() ==> #[trigger] final(players)@[i] == monster_bites(
                    old(self)@,
                    old(players)@[i],
                    floor,
                ),
    {
        match self {
            MonsterObj::SmallRat(obj) => obj.damage_players(players, floor),
            MonsterObj::GreenSlime(obj) => obj.damage_players(players, floor),
        }
    }

    pub fn take_damage(&mut self, damage_info: DamageInfo, floor: &Floor)
        ensures
            final(self)@ == monster_damaged(
                old(self)@,
                damage_info.damage,
                damage_info.direction,
                damage_info.player,
                floor,
            ),
            crate::monsters::laws::monster_sound(old(self)@) ==> crate::monsters::laws::monster_sound(
                final(self)@,
            ),
    {
        proof {
            if crate::monsters::laws::monster_sound(self@) {
                crate::monsters::laws::lemma_damaged_sound(
                    self@,
                    damage_info.damage,
                    damage_info.direction,
                    damage_info.player,
                    floor,
                );
            }
        }
        match self {
            MonsterObj::SmallRat(obj) => obj.take_damage(damage_info, floor),
            MonsterObj::GreenSlime(obj) => obj.take_damage(damage_info, floor),
        }
    }

    pub fn living(&self) -> (r: bool)
        ensures
            r == monster_living(self@),
    {
        match self {
            MonsterObj::SmallRat(obj) => obj.living(),
            MonsterObj::GreenSlime(obj) => obj.living(),
        }
    }

    pub fn xp(&self) -> (r: (&Vec<usize>, u32))
        ensures
            r.0@ == monster_damaged_by(self@),
            r.1 == monster_xp(self@),
    {
        match self {
            MonsterObj::SmallRat(obj) => obj.xp(),
            MonsterObj::GreenSlime(obj) => obj.xp(),
        }
    }

    pub fn pos(&self) -> (v: Vec2)
        ensures
            v == monster_pos(self@),
    {
        match self {
            MonsterObj::SmallRat(obj) => obj.pos(),
            MonsterObj::GreenSlime(obj) => obj.pos(),
        }
    }

    /// The size at which the monster is drawn.
    pub fn size(&self) -> (v: Vec2)
        ensures
            v.x == v.y,
            v.x == (match self {
                MonsterObj::SmallRat(rat) => if rat.attack_mode is Attacking {
                    19800
                } else {
                    crate::monsters::small_rat::SIZE
                },
                MonsterObj::GreenSlime(_) => crate::monsters::slime::SIZE,
            }),
    {
        match self {
            MonsterObj::SmallRat(obj) => obj.size(),
            MonsterObj::GreenSlime(obj) => obj.size(),
        }
    }

    /// The sprite that shows the monster.
    pub fn texture(&self) -> (name: &'static str)
        ensures
            name@ == (match self {
                MonsterObj::SmallRat(_) => "small_mouse.webp"@,
                MonsterObj::GreenSlime(_) => "green_slime.webp"@,
            }),
    {
        match self {
            MonsterObj::SmallRat(obj) => obj.texture(),
            MonsterObj::GreenSlime(obj) => obj.texture(),
        }
    }

    /// The angle at which the monster is drawn: monsters are drawn upright.
    pub fn rotation(&self) -> (a: Angle)
        ensures
            a == Angle::zero_spec(),
    {
        Angle::zero()
    }

    /// Whether the sprite is mirrored when the monster is drawn.
    pub fn flip_x(&self) -> (r: bool)
        ensures
            r,
    {
        match self {
            MonsterObj::SmallRat(obj) => obj.flip_x(),
            MonsterObj::GreenSlime(_) => true,
        }
    }
}

impl Enchantable for MonsterObj {
    fn apply_enchantment(&mut self, enchantment: Enchantment)
        ensures
            final(self)@ == monster_enchanted(old(self)@, enchantment),
            crate::monsters::laws::monster_sound(old(self)@) ==> crate::monsters::laws::monster_sound(
                final(self)@,
            ),
    {
        proof {
            crate::monsters::laws::lemma_enchanted_keeps(self@, enchantment);
        }
        match self {
            MonsterObj::SmallRat(obj) => obj.apply_enchantment(enchantment),
            MonsterObj::GreenSlime(obj) => obj.apply_enchantment(enchantment),
        }
    }

    fn update_enchantments(&mut self)
        ensures
            final(self)@ == monster_enchantments_updated(old(self)@),
            crate::monsters::laws::monster_sound(old(self)@) ==> crate::monsters::laws::monster_sound(
                final(self)@,
            ),
    {
        proof {
            crate::monsters::laws::lemma_enchantments_keep(self@);
        }
        match self {
            MonsterObj::SmallRat(obj) => obj.update_enchantments(),
            MonsterObj::GreenSlime(obj) => obj.update_enchantments(),
        }
    }
}

impl AsPolygon for MonsterObj {
    open spec fn polygon(&self) -> Polygon {
        monster_polygon(self@)
    }

    fn as_polygon(&self) -> (p: Polygon) {
        match self {
            MonsterObj::SmallRat(obj) => obj.as_polygon(),
            MonsterObj::GreenSlime(obj) => obj.as_polygon(),
        }
    }
}

/// The monster after the attack phase of one frame, and the attacks that
/// it starts. Only slimes attack from afar.
pub open spec fn monster_attacks(m: MonsterView, players: Seq<Player>, floor: &Floor) -> (
    MonsterView,
    Seq<AttackObj>,
) {
    match m {
        MonsterView::SmallRat(rat) => (m, Seq::empty()),
        MonsterView::GreenSlime(slime) => (
            MonsterView::GreenSlime(slime_attacks(slime, players, floor).0),
            slime_attacks(slime, players, floor).1,
        ),
    }
}

impl MonsterObj {
    pub fn attack(&mut self, players: &Vec<Player>, floor: &Floor, attacks: &mut Vec<AttackObj>)
        requires
            floor.wf(),
        ensures
            final(self)@ == monster_attacks(old(self)@, players@, floor).0,
            final(attacks)@ == old(attacks)@ + monster_attacks(old(self)@, players@, floor).1,
            crate::monsters::laws::monster_sound(old(self)@) ==> crate::monsters::laws::monster_sound(
                final(self)@,
            ),
    {
        proof {
            crate::monsters::laws::lemma_attacks_keep(self@, players@, floor);
        }
        match self {
            MonsterObj::SmallRat(obj) => {
                assert(attacks@ =~= attacks@ + Seq::<AttackObj>::empty());
            },
            MonsterObj::GreenSlime(obj) => obj.attack(players, floor, attacks),
        }
    }
}

/// The players after each of the first `n` whom `ids` name has gained `xp`
/// points of experience. An index that names no player is passed over.
pub open spec fn awarded(players: Seq<Player>, ids: Seq<usize>, xp: u32, n: int) -> Seq<Player>
    decreases n,
{
    if n <= 0 || n > ids.len() {
        players
    } else {
        let before = awarded(players, ids, xp, n - 1);
        let i = ids[n - 1] as int;
        if i < before.len() {
            before.update(i, before[i].with_xp(xp))
        } else {
            before
        }
    }
}

/// Gives `xp` points of experience to each player whom `ids` names.
pub fn award_xp(players: &mut Vec<Player>, ids: &Vec<usize>, xp: u32)
    ensures
        final(players)@ == awarded(old(players)@, ids@, xp, ids@.len() as int),
        final(players)@.len() == old(players)@.len(),
{
    let mut n: usize = 0;
    while n < ids.len()
        invariant
            n <= ids@.len(),
            players@.len() == old(players)@.len(),
            players@ == awarded(old(players)@, ids@, xp, n as int),
        decreases ids@.len() - n,
    {
        let i = ids[n];
        if i < players.len() {
            let ghost before = players@;
            players[i].add_xp(xp);
            assert(players@ =~= before.update(i as int, before[i as int].with_xp(xp)));
        }
        n = n + 1;
    }
}

/// Experience goes to the players who are named, and to nobody else: a
/// player whose index is not among `ids` is the same afterwards, and the
/// number of players does not change.
pub proof fn lemma_awarded_only_named(players: Seq<Player>, ids: Seq<usize>, xp: u32, n: int, j: int)
    requires
        0 <= n <= ids.len(),
        0 <= j < players.len(),
        forall|k: int| 0 <= k < n ==> ids[k] != j,
    ensures
        awarded(players, ids, xp, n).len() == players.len(),
        awarded(players, ids, xp, n)[j] == players[j],
    decreases n,
{
    if n > 0 {
        lemma_awarded_only_named(players, ids, xp, n - 1, j);
    }
}

/// When experience is given out to players of whom none is named twice,
/// every player whose index is named gains it once, and every other player
/// is as before.
pub proof fn lemma_awarded_exactly(players: Seq<Player>, ids: Seq<usize>, xp: u32, j: int)
    requires
        ids.no_duplicates(),
        0 <= j < players.len() <= usize::MAX,
    ensures
        awarded(players, ids, xp, ids.len() as int).len() == players.len(),
        awarded(players, ids, xp, ids.len() as int)[j] == (if ids.contains(j as usize) {
            players[j].with_xp(xp)
        } else {
            players[j]
        }),
{
    lemma_awarded_len(players, ids, xp, ids.len() as int);
    if ids.contains(j as usize) {
        let at = choose|at: int| 0 <= at < ids.len() && ids[at] == j as usize;
        lemma_awarded_once(players, ids, xp, ids.len() as int, at);
    } else {
        assert forall|k: int| 0 <= k < ids.len() implies ids[k] != j by {
            if ids[k] == j {
                assert(ids.contains(j as usize));
            }
        }
        lemma_awarded_only_named(players, ids, xp, ids.len() as int, j);
    }
}

/// The number of players stays the same when experience is given out.
pub proof fn lemma_awarded_len(players: Seq<Player>, ids: Seq<usize>, xp: u32, n: int)
    ensures
        awarded(players, ids, xp, n).len() == players.len(),
    decreases n,
{
    if 0 < n <= ids.len() {
        lemma_awarded_len(players, ids, xp, n - 1);
    }
}

/// A player who is named once among the first `n` of `ids` gains the
/// experience once.
pub proof fn lemma_awarded_once(players: Seq<Player>, ids: Seq<usize>, xp: u32, n: int, at: int)
    requires
        0 <= at < n <= ids.len(),
        ids[at] < players.len(),
        forall|k: int| 0 <= k < n && k != at ==> ids[k] != ids[at],
    ensures
        awarded(players, ids, xp, n)[ids[at] as int] == players[ids[at] as int].with_xp(xp),
    decreases n,
{
    lemma_awarded_len(players, ids, xp, n - 1);
    if at == n - 1 {
        lemma_awarded_only_named(players, ids, xp, n - 1, ids[at] as int);
    } else {
        lemma_awarded_once(players, ids, xp, n - 1, at);
    }
}

/// The monsters after the movement phase of one frame for the first `n` of
/// them, and the state of the generator: each monster in turn lets a frame
/// of its enchantments pass and then moves.
pub open spec fn moved_all(
    monsters: Seq<MonsterView>,
    players: Seq<Player>,
    floor: &Floor,
    state: u64,
    n: int,
) -> (Seq<MonsterView>, u64)
    decreases n,
{
    if n <= 0 || n > monsters.len() {
        (monsters, state)
    } else {
        let (before, state1) = moved_all(monsters, players, floor, state, n - 1);
        let (moved, state2) = monster_moved(
            monster_enchantments_updated(before[n - 1]),
            players,
            floor,
            state1,
        );
        (before.update(n - 1, moved), state2)
    }
}

/// The movement phase keeps the number of monsters.
pub proof fn lemma_moved_all_len(
    monsters: Seq<MonsterView>,
    players: Seq<Player>,
    floor: &Floor,
    state: u64,
    n: int,
)
    ensures
        moved_all(monsters, players, floor, state, n).0.len() == monsters.len(),
    decreases n,
{
    if 0 < n <= monsters.len() {
        lemma_moved_all_len(monsters, players, floor, state, n - 1);
    }
}

/// Lets every monster of the floor move for one frame.
pub fn move_monsters(players: &Vec<Player>, floor_info: &mut FloorInfo, rng: &mut Rng)
    requires
        old(floor_info).floor.wf(),
    ensures
        old(floor_info).same_but_monsters(*final(floor_info)),
        (monster_views(final(floor_info).monsters@), final(rng).state) == moved_all(
            monster_views(old(floor_info).monsters@),
            players@,
            &old(floor_info).floor,
            old(rng).state,
            old(floor_info).monsters@.len() as int,
        ),
{
    let ghost start = monster_views(floor_info.monsters@);
    let ghost state0 = rng.state;
    let mut i: usize = 0;
    while i < floor_info.monsters.len()
        invariant
            i <= floor_info.monsters@.len(),
            floor_info.monsters@.len() == old(floor_info).monsters@.len(),
            start.len() == old(floor_info).monsters@.len(),
            old(floor_info).same_but_monsters(*floor_info),
            floor_info.floor.wf(),
            (monster_views(floor_info.monsters@), rng.state) == moved_all(
                start,
                players@,
                &old(floor_info).floor,
                state0,
                i as int,
            ),
        decreases floor_info.monsters@.len() - i,
    {
        let ghost before = monster_views(floor_info.monsters@);
        floor_info.monsters[i].update_enchantments();
        floor_info.monsters[i].movement(players, &floor_info.floor, rng);
        assert(monster_views(floor_info.monsters@) =~= before.update(
            i as int,
            floor_info.monsters@[i as int]@,
        ));
        i = i + 1;
    }
}

/// What the attack phase of a frame leaves behind.
pub struct Aftermath {
    /// The monsters that live on.
    pub monsters: Seq<MonsterView>,
    pub players: Seq<Player>,
    pub attacks: Seq<AttackObj>,
}

/// The players after the monster `m` has hurt those whom it touches.
pub open spec fn bitten(m: MonsterView, players: Seq<Player>, floor: &Floor) -> Seq<Player> {
    Seq::new(players.len(), |i: int| monster_bites(m, players[i], floor))
}

/// What one monster leaves behind in the attack phase: it starts its
/// attacks and hurts the players whom it touches; if it has no hit points
/// left, it gives its experience to every player who has hurt it and is
/// gone.
pub open spec fn fought(m: MonsterView, before: Aftermath, floor: &Floor) -> Aftermath {
    let (monster, started) = monster_attacks(m, before.players, floor);
    if monster_living(monster) {
        Aftermath {
            monsters: before.monsters.push(monster),
            players: bitten(monster, before.players, floor),
            attacks: before.attacks + started,
        }
    } else {
        Aftermath {
            monsters: before.monsters,
            players: awarded(
                bitten(monster, before.players, floor),
                monster_damaged_by(monster),
                monster_xp(monster),
                monster_damaged_by(monster).len() as int,
            ),
            attacks: before.attacks + started,
        }
    }
}

/// The aftermath of the attack phase for the first `n` monsters, one after
/// the other.
pub open spec fn fought_all(
    monsters: Seq<MonsterView>,
    players: Seq<Player>,
    attacks: Seq<AttackObj>,
    floor: &Floor,
    n: int,
) -> Aftermath
    decreases n,
{
    if n <= 0 || n > monsters.len() {
        Aftermath { monsters: Seq::empty(), players, attacks }
    } else {
        fought(monsters[n - 1], fought_all(monsters, players, attacks, floor, n - 1), floor)
    }
}

/// Lets one monster attack; returns the monster if it lives on.
pub fn fight(m: MonsterObj, living: &mut Vec<MonsterObj>, players: &mut Vec<Player>, floor: &Floor, attacks: &mut Vec<AttackObj>)
    requires
        floor.wf(),
    ensures
        (Aftermath {
            monsters: monster_views(final(living)@),
            players: final(players)@,
            attacks: final(attacks)@,
        }) == fought(
            m@,
            Aftermath {
                monsters: monster_views(old(living)@),
                players: old(players)@,
                attacks: old(attacks)@,
            },
            floor,
        ),
        final(players)@.len() == old(players)@.len(),
{
    let mut m = m;
    m.attack(players, floor, attacks);
    let ghost before = players@;
    m.damage_players(players, floor);
    assert(players@ =~= bitten(m@, before, floor));
    // If a monster dies, give all players who damaged it some XP
    if !m.living() {
        let (indices, xp) = m.xp();
        award_xp(players, indices, xp);
    } else {
        let ghost kept = monster_views(living@);
        let ghost view = m@;
        living.push(m);
        assert(monster_views(living@) =~= kept.push(view));
    }
}

/// Lets every monster of the floor attack, and removes the dead.
pub fn fight_monsters(players: &mut Vec<Player>, floor_info: &mut FloorInfo, attacks: &mut Vec<AttackObj>)
    requires
        old(floor_info).floor.wf(),
    ensures
        old(floor_info).same_but_monsters(*final(floor_info)),
        (Aftermath {
            monsters: monster_views(final(floor_info).monsters@),
            players: final(players)@,
            attacks: final(attacks)@,
        }) == fought_all(
            monster_views(old(floor_info).monsters@),
            old(players)@,
            old(attacks)@,
            &old(floor_info).floor,
            old(floor_info).monsters@.len() as int,
        ),
        final(players)@.len() == old(players)@.len(),
{
    let ghost all = monster_views(floor_info.monsters@);
    let mut living: Vec<MonsterObj> = Vec::new();
    let mut rest: Vec<MonsterObj> = Vec::new();
    std::mem::swap(&mut rest, &mut floor_info.monsters);
    let ghost mut n: int = 0;
    assert(monster_views(living@) =~= Seq::<MonsterView>::empty());
    while rest.len() > 0
        invariant
            0 <= n,
            players@.len() == old(players)@.len(),
            n + rest@.len() == all.len(),
            old(floor_info).floor.wf(),
            old(floor_info).same_but_monsters(*floor_info),
            forall|j: int| 0 <= j < rest@.len() ==> (#[trigger] rest@[j])@ == all[n + j],
            (Aftermath {
                monsters: monster_views(living@),
                players: players@,
                attacks: attacks@,
            }) == fought_all(all, old(players)@, old(attacks)@, &old(floor_info).floor, n),
        decreases rest@.len(),
    {
        let m = rest.remove(0);
        fight(m, &mut living, players, &floor_info.floor, attacks);
        proof {
            n = n + 1;
        }
    }
    floor_info.monsters = living;
}

/// Lets one frame pass for the monsters of a floor: first every monster
/// moves, then every monster attacks, and the dead are removed.
pub fn update_monsters(players: &mut Vec<Player>, floor_info: &mut FloorInfo, attacks: &mut Vec<AttackObj>, rng: &mut Rng)
    requires
        old(floor_info).floor.wf(),
    ensures
        old(floor_info).same_but_monsters(*final(floor_info)),
        final(rng).state == moved_all(
            monster_views(old(floor_info).monsters@),
            old(players)@,
            &old(floor_info).floor,
            old(rng).state,
            old(floor_info).monsters@.len() as int,
        ).1,
        (Aftermath {
            monsters: monster_views(final(floor_info).monsters@),
            players: final(players)@,
            attacks: final(attacks)@,
        }) == fought_all(
            moved_all(
                monster_views(old(floor_info).monsters@),
                old(players)@,
                &old(floor_info).floor,
                old(rng).state,
                old(floor_info).monsters@.len() as int,
            ).0,
            old(players)@,
            old(attacks)@,
            &old(floor_info).floor,
            old(floor_info).monsters@.len() as int,
        ),
        final(players)@.len() == old(players)@.len(),
{
    proof {
        lemma_moved_all_len(
            monster_views(floor_info.monsters@),
            players@,
            &floor_info.floor,
            rng.state,
            floor_info.monsters@.len() as int,
        );
    }
    move_monsters(players, floor_info, rng);
    fight_monsters(players, floor_info, attacks);
}

} // verus!
