//! What stays the same about a monster while it moves and attacks, and
//! who gains experience when it dies.

use vstd::prelude::*;
use crate::attacks::AttackObj;
use crate::map::Floor;
use crate::monsters::slime::{
    slime_attacking, slime_attacks, slime_burns, slime_damaged, slime_enchanted,
    slime_enchantments_updated, slime_moved, slime_passive, slime_step, GreenSlimeView,
};
use crate::monsters::small_rat::{
    lemma_with_member, rat_attacking, rat_bites, rat_blind, rat_damaged, rat_enchanted,
    rat_enchantments_updated, rat_follow, rat_moved, rat_passive, rat_step, SmallRatView,
};
use crate::monsters::{
    awarded, bitten, fought, fought_all, lemma_awarded_exactly, monster_attacks, monster_bites,
    monster_damaged, monster_damaged_by, monster_enchanted, monster_enchantments_updated,
    monster_living, monster_moved, monster_xp, moved_all, Aftermath, MonsterView,
};
use crate::player::Player;

verus! {

/// The hit points of a monster.
pub open spec fn health_of(m: MonsterView) -> u16 {
    match m {
        MonsterView::SmallRat(rat) => rat.health,
        MonsterView::GreenSlime(slime) => slime.health,
    }
}

/// Whether a regeneration is at work on the monster.
pub open spec fn regenerating(m: MonsterView) -> bool {
    match m {
        MonsterView::SmallRat(rat) => rat.enchantments.regenerating is Some,
        MonsterView::GreenSlime(slime) => slime.enchantments.regenerating is Some,
    }
}

/// Whether the monster is sound: it remembers each player who has hurt it
/// once.
pub open spec fn monster_sound(m: MonsterView) -> bool {
    monster_damaged_by(m).no_duplicates()
}

/// A rat that follows its path keeps its hit points and its memory of who
/// has hurt it.
pub proof fn lemma_rat_follow_keeps(rat: SmallRatView, players: Seq<Player>, floor: &Floor, speed: int)
    ensures
        rat_follow(rat, players, floor, speed).health == rat.health,
        rat_follow(rat, players, floor, speed).damaged_by == rat.damaged_by,
{
    reveal(rat_follow);
}

/// A rat that plans and steps keeps its hit points and its memory.
pub proof fn lemma_rat_step_keeps(
    rat: SmallRatView,
    players: Seq<Player>,
    floor: &Floor,
    speed: int,
    only_visible: bool,
)
    ensures
        rat_step(rat, players, floor, speed, only_visible).0.health == rat.health,
        rat_step(rat, players, floor, speed, only_visible).0.damaged_by == rat.damaged_by,
{
    reveal(rat_step);
    lemma_rat_follow_keeps(rat, players, floor, speed);
    if rat.current_path is None && rat.current_target is Some {
        let goal = crate::monsters::small_rat::target_polygon(rat.current_target->0, players);
        if goal is Some {
            let path = crate::map::find_path_spec(
                floor,
                crate::map::tile_of(crate::monsters::small_rat::rat_polygon(rat.pos).center),
                crate::map::tile_of(goal->0.center),
                only_visible,
                true,
            );
            if path is Some {
                lemma_rat_follow_keeps(
                    SmallRatView { current_path: Some((path->0, 0usize)), ..rat },
                    players,
                    floor,
                    speed,
                );
            }
        }
    }
}

/// A rat that moves keeps its hit points and its memory.
pub proof fn lemma_rat_moved_keeps(rat: SmallRatView, players: Seq<Player>, floor: &Floor, state: u64)
    ensures
        rat_moved(rat, players, floor, state).0.health == rat.health,
        rat_moved(rat, players, floor, state).0.damaged_by == rat.damaged_by,
{
    reveal(rat_moved);
    lemma_rat_blind_keeps(rat, floor, state);
    lemma_rat_passive_keeps(rat, players, floor, state);
    lemma_rat_attacking_keeps(rat, players, floor);
}

/// A blinded rat keeps its hit points and its memory.
pub proof fn lemma_rat_blind_keeps(rat: SmallRatView, floor: &Floor, state: u64)
    ensures
        rat_blind(rat, floor, state).0.health == rat.health,
        rat_blind(rat, floor, state).0.damaged_by == rat.damaged_by,
{
    reveal(rat_blind);
}

/// A passive rat keeps its hit points and its memory.
pub proof fn lemma_rat_passive_keeps(rat: SmallRatView, players: Seq<Player>, floor: &Floor, state: u64)
    ensures
        rat_passive(rat, players, floor, state).0.health == rat.health,
        rat_passive(rat, players, floor, state).0.damaged_by == rat.damaged_by,
{
    reveal(rat_passive);
    let waited = SmallRatView {
        time_til_move: crate::player::sub_u16(rat.time_til_move, 1),
        ..rat
    };
    if waited.time_til_move == 0 {
        let visible = floor.visible_from(
            crate::map::tile_of(crate::monsters::small_rat::rat_polygon(rat.pos).center),
            crate::monsters::small_rat::SIGHT as int,
        );
        let aimed = if waited.current_target is None {
            SmallRatView {
                current_target: Some(
                    crate::monsters::small_rat::wander_target(visible, rat.pos, state),
                ),
                current_path: None,
                ..waited
            }
        } else {
            waited
        };
        lemma_rat_step_keeps(
            aimed,
            players,
            floor,
            crate::monsters::small_rat::WANDER_SPEED as int,
            true,
        );
    }
}

/// An attacking rat keeps its hit points and its memory.
pub proof fn lemma_rat_attacking_keeps(rat: SmallRatView, players: Seq<Player>, floor: &Floor)
    ensures
        rat_attacking(rat, players, floor).health == rat.health,
        rat_attacking(rat, players, floor).damaged_by == rat.damaged_by,
{
    reveal(rat_attacking);
    let waited = SmallRatView {
        time_til_move: crate::player::sub_u16(rat.time_til_move, 1),
        ..rat
    };
    lemma_rat_step_keeps(
        waited,
        players,
        floor,
        crate::monsters::small_rat::HUNT_SPEED as int,
        false,
    );
}

/// A slime that moves keeps its hit points and its memory.
pub proof fn lemma_slime_moved_keeps(
    slime: GreenSlimeView,
    players: Seq<Player>,
    floor: &Floor,
    state: u64,
)
    ensures
        slime_moved(slime, players, floor, state).0.health == slime.health,
        slime_moved(slime, players, floor, state).0.damaged_by == slime.damaged_by,
{
    reveal(slime_moved);
    reveal(slime_passive);
    reveal(slime_attacking);
    reveal(slime_step);
}

/// A monster that moves keeps its hit points and its memory of who has
/// hurt it.
pub proof fn lemma_moved_keeps(m: MonsterView, players: Seq<Player>, floor: &Floor, state: u64)
    ensures
        health_of(monster_moved(m, players, floor, state).0) == health_of(m),
        monster_damaged_by(monster_moved(m, players, floor, state).0) == monster_damaged_by(m),
        monster_xp(monster_moved(m, players, floor, state).0) == monster_xp(m),
{
    match m {
        MonsterView::SmallRat(rat) => lemma_rat_moved_keeps(rat, players, floor, state),
        MonsterView::GreenSlime(slime) => lemma_slime_moved_keeps(slime, players, floor, state),
    }
}

/// A frame of enchantments keeps the memory of a monster, and its hit
/// points too unless a regeneration is at work on it.
pub proof fn lemma_enchantments_keep(m: MonsterView)
    ensures
        monster_damaged_by(monster_enchantments_updated(m)) == monster_damaged_by(m),
        monster_xp(monster_enchantments_updated(m)) == monster_xp(m),
        !regenerating(m) ==> health_of(monster_enchantments_updated(m)) == health_of(m),
{
    reveal(rat_enchantments_updated);
    reveal(slime_enchantments_updated);
}

/// An enchantment that is put on a monster leaves its hit points and its
/// memory as they are.
pub proof fn lemma_enchanted_keeps(m: MonsterView, enchantment: crate::enchantments::Enchantment)
    ensures
        monster_damaged_by(monster_enchanted(m, enchantment)) == monster_damaged_by(m),
        health_of(monster_enchanted(m, enchantment)) == health_of(m),
{
    reveal(rat_enchanted);
    reveal(slime_enchanted);
}

/// A sound monster that is hit is sound afterwards, and remembers the
/// player who has hit it.
pub proof fn lemma_damaged_sound(
    m: MonsterView,
    damage: u16,
    direction: crate::math::Angle,
    player: usize,
    floor: &Floor,
)
    requires
        monster_sound(m),
    ensures
        monster_sound(monster_damaged(m, damage, direction, player, floor)),
        monster_damaged_by(monster_damaged(m, damage, direction, player, floor)).contains(player),
{
    reveal(rat_damaged);
    reveal(slime_damaged);
    lemma_with_member(monster_damaged_by(m), player);
}

/// A monster that attacks keeps its hit points and its memory.
pub proof fn lemma_attacks_keep(m: MonsterView, players: Seq<Player>, floor: &Floor)
    ensures
        health_of(monster_attacks(m, players, floor).0) == health_of(m),
        monster_damaged_by(monster_attacks(m, players, floor).0) == monster_damaged_by(m),
        monster_xp(monster_attacks(m, players, floor).0) == monster_xp(m),
{
    reveal(slime_attacks);
}

/// The touch of a monster leaves the experience and the level of a player
/// as they are.
pub proof fn lemma_bites_keep(m: MonsterView, p: Player, floor: &Floor)
    ensures
        monster_bites(m, p, floor).xp == p.xp,
        monster_bites(m, p, floor).level == p.level,
{
    reveal(rat_bites);
    reveal(slime_burns);
}

/// The experience from a dead monster. When a sound monster without hit
/// points has its turn in the attack phase, it is gone afterwards; every
/// player whom it remembers gains its experience once, on top of what its
/// touch does to the player; and every other player gains nothing.
pub proof fn lemma_fought_awards(m: MonsterView, before: Aftermath, floor: &Floor, j: int)
    requires
        health_of(m) == 0,
        monster_sound(m),
        0 <= j < before.players.len() <= usize::MAX,
    ensures
        fought(m, before, floor).monsters == before.monsters,
        fought(m, before, floor).players.len() == before.players.len(),
        fought(m, before, floor).players[j] == (if monster_damaged_by(m).contains(j as usize) {
            monster_bites(monster_attacks(m, before.players, floor).0, before.players[j], floor).with_xp(
                monster_xp(m),
            )
        } else {
            monster_bites(monster_attacks(m, before.players, floor).0, before.players[j], floor)
        }),
        fought(m, before, floor).players[j].xp == (if monster_damaged_by(m).contains(j as usize) {
            before.players[j].with_xp(monster_xp(m)).xp
        } else {
            before.players[j].xp
        }),
        fought(m, before, floor).players[j].level == (if monster_damaged_by(m).contains(
            j as usize,
        ) {
            before.players[j].with_xp(monster_xp(m)).level
        } else {
            before.players[j].level
        }),
{
    lemma_attacks_keep(m, before.players, floor);
    let monster = monster_attacks(m, before.players, floor).0;
    let hurt = bitten(monster, before.players, floor);
    lemma_awarded_exactly(hurt, monster_damaged_by(monster), monster_xp(monster), j);
    lemma_bites_keep(monster, before.players[j], floor);
}

/// The experience from a monster that is dead when its frame begins. With
/// one sound monster on the floor that has no hit points and no regeneration
/// at work, the frame of the monsters leaves no monster; every player whom
/// the monster remembers has gained its experience once, and every other
/// player has the experience and the level that it had.
pub proof fn lemma_dead_monster_awards(
    m: MonsterView,
    players: Seq<Player>,
    attacks: Seq<AttackObj>,
    floor: &Floor,
    state: u64,
    j: int,
)
    requires
        health_of(m) == 0,
        !regenerating(m),
        monster_sound(m),
        0 <= j < players.len() <= usize::MAX,
    ensures
        ({
            let moved = moved_all(seq![m], players, floor, state, 1);
            let after = fought_all(moved.0, players, attacks, floor, 1);
            &&& after.monsters.len() == 0
            &&& after.players.len() == players.len()
            &&& after.players[j].xp == (if monster_damaged_by(m).contains(j as usize) {
                players[j].with_xp(monster_xp(m)).xp
            } else {
                players[j].xp
            })
            &&& after.players[j].level == (if monster_damaged_by(m).contains(j as usize) {
                players[j].with_xp(monster_xp(m)).level
            } else {
                players[j].level
            })
        }),
{
    let monsters = seq![m];
    assert(monsters[0] == m);
    let updated = monster_enchantments_updated(m);
    lemma_enchantments_keep(m);
    lemma_moved_keeps(updated, players, floor, state);
    let start = moved_all(monsters, players, floor, state, 0);
    assert(start == (monsters, state));
    let moved = moved_all(monsters, players, floor, state, 1);
    let walked = monster_moved(updated, players, floor, state).0;
    assert(moved.0 == monsters.update(0, walked));
    assert(moved.0[0] == walked);
    assert(moved.0.len() == 1);
    let none = fought_all(moved.0, players, attacks, floor, 0);
    assert(none == (Aftermath { monsters: Seq::empty(), players, attacks }));
    lemma_fought_awards(walked, none, floor, j);
}

} // verus!
