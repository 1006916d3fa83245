//! What is done to alike players leaves alike players.

use vstd::prelude::*;
use crate::attacks::AttackObj;
use crate::init_game::{exit_checked, player_stepped, players_stepped, GameState};
use crate::map::Floor;
use crate::math::AsPolygon;
use crate::player::{cooled_down, Player, PlayerInventory};
use crate::replay::{same_level, same_player, same_players, same_state, same_tiles};
use crate::replay::tiles::lemma_blocked;

verus! {

/// One frame of cooldowns and enchantments takes alike players to alike
/// players.
pub proof fn lemma_player_stepped(b1: Player, b2: Player, a1: Player, a2: Player)
    requires
        same_player(b1, b2),
        player_stepped(b1, a1),
        player_stepped(b2, a2),
    ensures
        same_player(a1, a2),
{
    let c1 = choose|c: Player| #[trigger] cooled_down(b1, c) && a1 == c.enchantments_updated();
    let c2 = choose|c: Player| #[trigger] cooled_down(b2, c) && a2 == c.enchantments_updated();
    assert(same_player(c1, c2));
}

/// The frame of the players takes alike states to alike states.
pub proof fn lemma_players_stepped(b1: GameState, b2: GameState, a1: GameState, a2: GameState)
    requires
        same_state(b1, b2),
        players_stepped(b1, a1),
        players_stepped(b2, a2),
    ensures
        same_state(a1, a2),
{
    reveal(same_state);
    assert forall|i: int| 0 <= i < a1.players@.len() implies same_player(
        #[trigger] a1.players@[i],
        a2.players@[i],
    ) by {
        lemma_player_stepped(b1.players@[i], b2.players@[i], a1.players@[i], a2.players@[i]);
    }
}

/// The check of the exit takes alike states to alike states.
pub proof fn lemma_exit_checked(b1: GameState, b2: GameState, a1: GameState, a2: GameState)
    requires
        same_state(b1, b2),
        b1.map.current_floor_index < b1.map.rooms@.len(),
        exit_checked(b1, a1),
        exit_checked(b2, a2),
    ensures
        same_state(a1, a2),
{
    reveal(same_state);
    let leaving1 = exists|i: int|
        0 <= i < b1.players@.len() && (#[trigger] b1.players@[i]).polygon().collides(
            b1.floor().exit.polygon(),
            0,
            0,
        );
    let leaving2 = exists|i: int|
        0 <= i < b2.players@.len() && (#[trigger] b2.players@[i]).polygon().collides(
            b2.floor().exit.polygon(),
            0,
            0,
        );
    assert(same_level(b1.floor(), b2.floor()));
    if leaving1 {
        let i = choose|i: int|
            0 <= i < b1.players@.len() && (#[trigger] b1.players@[i]).polygon().collides(
                b1.floor().exit.polygon(),
                0,
                0,
            );
        assert(same_player(b1.players@[i], b2.players@[i]));
        assert(b2.players@[i].polygon().collides(b2.floor().exit.polygon(), 0, 0));
    }
    if leaving2 {
        let i = choose|i: int|
            0 <= i < b2.players@.len() && (#[trigger] b2.players@[i]).polygon().collides(
                b2.floor().exit.polygon(),
                0,
                0,
            );
        assert(same_player(b1.players@[i], b2.players@[i]));
        assert(b1.players@[i].polygon().collides(b1.floor().exit.polygon(), 0, 0));
    }
    assert(leaving1 == leaving2);
    assert forall|i: int| 0 <= i < a1.players@.len() implies same_player(
        #[trigger] a1.players@[i],
        a2.players@[i],
    ) by {
        assert(same_player(b1.players@[i], b2.players@[i]));
    }
    if leaving1 && b1.map.current_floor_index + 1 < b1.map.rooms@.len() {
        assert(same_level(
            b1.map.rooms@[b1.map.current_floor_index + 1],
            b2.map.rooms@[b1.map.current_floor_index + 1],
        ));
    }
}

/// A step takes alike players on alike floors to alike players.
pub proof fn lemma_moved_player(
    p: Player,
    q: Player,
    angle: crate::math::Angle,
    speed: Option<crate::math::Vec2>,
    f1: Floor,
    f2: Floor,
)
    requires
        same_player(p, q),
        same_tiles(f1.objects@, f2.objects@),
    ensures
        same_player(
            crate::player::moved_player(p, angle, speed, &f1),
            crate::player::moved_player(q, angle, speed, &f2),
        ),
{
    lemma_blocked(f1, f2);
}

/// Alike players start the same attack.
pub proof fn lemma_attack_started(p: Player, q: Player, index: Option<usize>, is_primary: bool)
    requires
        same_player(p, q),
    ensures
        crate::attacks::attack_started(p, index, is_primary) == crate::attacks::attack_started(
            q,
            index,
            is_primary,
        ),
{
}

/// A lunge takes alike players on alike floors to alike players.
pub proof fn lemma_lunged(p: Player, q: Player, change: crate::math::Vec2, f1: Floor, f2: Floor)
    requires
        same_player(p, q),
        same_tiles(f1.objects@, f2.objects@),
    ensures
        same_player(crate::attacks::lunged(p, change, &f1), crate::attacks::lunged(q, change, &f2)),
{
    lemma_blocked(f1, f2);
}

/// The player who has paid for an attack from the given slot.
pub open spec fn paid_for(before: Player, attack: AttackObj, is_primary: bool) -> Player {
    let used = Some(crate::attacks::spent(crate::attacks::wielded(before, is_primary)->0));
    Player {
        mp: crate::player::PointInfo {
            points: (before.mp.points - attack.mana_cost_spec()) as u16,
            ..before.mp
        },
        primary_cooldown: if is_primary {
            attack.cooldown_spec()
        } else {
            before.primary_cooldown
        },
        secondary_cooldown: if is_primary {
            before.secondary_cooldown
        } else {
            attack.cooldown_spec()
        },
        inventory: PlayerInventory {
            primary_item: if is_primary {
                used
            } else {
                before.inventory.primary_item
            },
            secondary_item: if is_primary {
                before.inventory.secondary_item
            } else {
                used
            },
            ..before.inventory
        },
        ..before
    }
}

/// What an attempt to attack that starts an attack leaves of the player:
/// the player has paid, and lunges as the attack asks.
pub proof fn lemma_attacked_started(p: Player, index: Option<usize>, f: Floor, is_primary: bool)
    requires
        crate::attacks::attack_started(p, index, is_primary) is Some,
    ensures
        crate::attacks::attacked(p, index, &f, is_primary) == (match crate::attacks::attack_started(
            p,
            index,
            is_primary,
        )->0 {
            AttackObj::Stab(obj) => crate::attacks::lunged(
                paid_for(p, AttackObj::Stab(obj), is_primary),
                obj.angle.step_spec(crate::player::PLAYER_SIZE as int),
                &f,
            ),
            AttackObj::ThrowingKnife(obj) => crate::attacks::lunged(
                paid_for(p, AttackObj::ThrowingKnife(obj), is_primary),
                obj.movement_angle.step_spec(crate::player::PLAYER_SIZE as int),
                &f,
            ),
            AttackObj::MagicMissile(obj) => crate::attacks::lunged(
                paid_for(p, AttackObj::MagicMissile(obj), is_primary),
                obj.angle.step_spec(-1500),
                &f,
            ),
            other => paid_for(p, other, is_primary),
        }),
{
    reveal(crate::attacks::attacked);
}

/// What an attempt to attack that starts no attack leaves of the player:
/// nothing changes unless the slot is ready and holds an item that can be
/// used, which is then spent.
pub proof fn lemma_attacked_idle(p: Player, index: Option<usize>, f1: Floor, f2: Floor, is_primary: bool)
    requires
        crate::attacks::attack_started(p, index, is_primary) is None,
    ensures
        crate::attacks::attacked(p, index, &f1, is_primary) == crate::attacks::attacked(
            p,
            index,
            &f2,
            is_primary,
        ),
        crate::attacks::attacked(p, index, &f1, is_primary) == (Player {
            inventory: crate::attacks::attacked(p, index, &f1, is_primary).inventory,
            ..p
        }),
        crate::attacks::attacked(p, index, &f1, is_primary).inventory == (PlayerInventory {
            primary_item: crate::attacks::attacked(p, index, &f1, is_primary).inventory.primary_item,
            secondary_item: crate::attacks::attacked(
                p,
                index,
                &f1,
                is_primary,
            ).inventory.secondary_item,
            ..p.inventory
        }),
        crate::attacks::attacked(p, index, &f1, is_primary).inventory.primary_item == (if is_primary
            && idle_spends(p, is_primary) {
            Some(crate::attacks::spent(p.inventory.primary_item->0))
        } else {
            p.inventory.primary_item
        }),
        crate::attacks::attacked(p, index, &f1, is_primary).inventory.secondary_item == (if !is_primary
            && idle_spends(p, is_primary) {
            Some(crate::attacks::spent(p.inventory.secondary_item->0))
        } else {
            p.inventory.secondary_item
        }),
{
    reveal(crate::attacks::attacked);
}

/// Whether an attempt to attack from the slot spends the item in it: the
/// slot is ready and holds an item that can be used.
pub open spec fn idle_spends(p: Player, is_primary: bool) -> bool {
    let cooldown = if is_primary {
        p.primary_cooldown
    } else {
        p.secondary_cooldown
    };
    cooldown == 0 && crate::attacks::wielded(p, is_primary) is Some && crate::attacks::usable(
        crate::attacks::wielded(p, is_primary)->0,
    )
}

/// An attempt to attack takes alike players on alike floors to alike
/// players.
pub proof fn lemma_attacked(
    p: Player,
    q: Player,
    index: Option<usize>,
    f1: Floor,
    f2: Floor,
    is_primary: bool,
)
    requires
        same_player(p, q),
        same_tiles(f1.objects@, f2.objects@),
    ensures
        same_player(
            crate::attacks::attacked(p, index, &f1, is_primary),
            crate::attacks::attacked(q, index, &f2, is_primary),
        ),
{
    lemma_attack_started(p, q, index, is_primary);
    match crate::attacks::attack_started(p, index, is_primary) {
        Some(attack) => {
            lemma_attacked_started(p, index, f1, is_primary);
            lemma_attacked_started(q, index, f2, is_primary);
            let paid1 = paid_for(p, attack, is_primary);
            let paid2 = paid_for(q, attack, is_primary);
            assert(same_player(paid1, paid2));
            match attack {
                AttackObj::Stab(obj) => {
                    lemma_lunged(
                        paid1,
                        paid2,
                        obj.angle.step_spec(crate::player::PLAYER_SIZE as int),
                        f1,
                        f2,
                    );
                },
                AttackObj::ThrowingKnife(obj) => {
                    lemma_lunged(
                        paid1,
                        paid2,
                        obj.movement_angle.step_spec(crate::player::PLAYER_SIZE as int),
                        f1,
                        f2,
                    );
                },
                AttackObj::MagicMissile(obj) => {
                    lemma_lunged(paid1, paid2, obj.angle.step_spec(-1500), f1, f2);
                },
                _ => {},
            }
        },
        None => {
            lemma_attacked_idle(p, index, f1, f1, is_primary);
            lemma_attacked_idle(q, index, f2, f2, is_primary);
        },
    }
}

/// The same player is the first to be seen among alike players.
pub proof fn lemma_first_seen(
    p1: Seq<Player>,
    p2: Seq<Player>,
    visible: Seq<usize>,
    alive_only: bool,
    from: int,
)
    requires
        same_players(p1, p2),
    ensures
        crate::monsters::small_rat::first_seen(p1, visible, alive_only, from)
            == crate::monsters::small_rat::first_seen(p2, visible, alive_only, from),
        crate::monsters::small_rat::first_seen(p1, visible, alive_only, from) matches Some(i)
            ==> i < p1.len(),
    decreases p1.len() - from,
{
    if !(from < 0 || from >= p1.len()) {
        assert(same_player(p1[from], p2[from]));
        lemma_first_seen(p1, p2, visible, alive_only, from + 1);
    }
}

/// The same player is the nearest among alike players.
pub proof fn lemma_nearest_player(p1: Seq<Player>, p2: Seq<Player>, center: crate::math::Vec2, n: int)
    requires
        same_players(p1, p2),
    ensures
        crate::monsters::slime::nearest_player(p1, center, n)
            == crate::monsters::slime::nearest_player(p2, center, n),
        crate::monsters::slime::nearest_player(p1, center, n) matches Some(i) ==> i < p1.len(),
    decreases n,
{
    if !(n <= 0 || n > p1.len()) {
        lemma_nearest_player(p1, p2, center, n - 1);
        assert(same_player(p1[n - 1], p2[n - 1]));
        match crate::monsters::slime::nearest_player(p1, center, n - 1) {
            Some(best) => {
                assert(same_player(p1[best as int], p2[best as int]));
            },
            None => {},
        }
        let last = (n - 1) as usize;
        assert(last <= n - 1);
    }
}

/// A target has the same shape among alike players.
pub proof fn lemma_target_polygon(
    target: crate::monsters::small_rat::Target,
    p1: Seq<Player>,
    p2: Seq<Player>,
)
    requires
        same_players(p1, p2),
    ensures
        crate::monsters::small_rat::target_polygon(target, p1)
            == crate::monsters::small_rat::target_polygon(target, p2),
{
    match target {
        crate::monsters::small_rat::Target::PlayerIndex(i) => {
            if i < p1.len() {
                assert(same_player(p1[i as int], p2[i as int]));
            }
        },
        _ => {},
    }
}

/// A hit takes alike players on alike floors to alike players.
pub proof fn lemma_damaged_player(
    p: Player,
    q: Player,
    damage: u16,
    direction: crate::math::Angle,
    f1: Floor,
    f2: Floor,
)
    requires
        same_player(p, q),
        same_tiles(f1.objects@, f2.objects@),
    ensures
        same_player(
            crate::player::damaged_player(p, damage, direction, &f1),
            crate::player::damaged_player(q, damage, direction, &f2),
        ),
{
    lemma_blocked(f1, f2);
}

/// Experience that is given out takes alike parties to alike parties.
pub proof fn lemma_awarded(p1: Seq<Player>, p2: Seq<Player>, ids: Seq<usize>, xp: u32, n: int)
    requires
        same_players(p1, p2),
    ensures
        same_players(
            crate::monsters::awarded(p1, ids, xp, n),
            crate::monsters::awarded(p2, ids, xp, n),
        ),
    decreases n,
{
    if !(n <= 0 || n > ids.len()) {
        lemma_awarded(p1, p2, ids, xp, n - 1);
        let b1 = crate::monsters::awarded(p1, ids, xp, n - 1);
        let b2 = crate::monsters::awarded(p2, ids, xp, n - 1);
        let i = ids[n - 1] as int;
        if i < b1.len() {
            assert(same_player(b1[i], b2[i]));
            let a1 = b1.update(i, b1[i].with_xp(xp));
            let a2 = b2.update(i, b2[i].with_xp(xp));
            assert forall|k: int| 0 <= k < a1.len() implies same_player(#[trigger] a1[k], a2[k]) by {
                assert(same_player(b1[k], b2[k]));
            }
        }
    }
}

/// The same player is the first whom a shape touches among alike players.
pub proof fn lemma_first_touched(p1: Seq<Player>, p2: Seq<Player>, poly: crate::math::Polygon, from: int)
    requires
        same_players(p1, p2),
    ensures
        crate::attacks::first_touched(p1, poly, from) == crate::attacks::first_touched(
            p2,
            poly,
            from,
        ),
        crate::attacks::first_touched(p1, poly, from) matches Some(k) ==> 0 <= k < p1.len(),
    decreases p1.len() - from,
{
    if !(from < 0 || from >= p1.len()) {
        assert(same_player(p1[from], p2[from]));
        lemma_first_touched(p1, p2, poly, from + 1);
    }
}

} // verus!
