//! The effects on the tiles take alike states to alike states.

use vstd::prelude::*;
use crate::init_game::{effects_stepped, GameState};
use crate::map::{Floor, FloorInfo, Object};
use crate::math::AsPolygon;
use crate::monsters::MonsterView;
use crate::player::Player;
use crate::replay::{
    lemma_monster_views, lemma_same_but_floor, lemma_same_floor, same_level, same_object,
    same_player, same_state, same_tiles,
};
use crate::replay::tiles::lemma_effects_at;

verus! {

/// The effects of a tile take alike players to alike players.
pub proof fn lemma_player_affected(p: Player, q: Player, effects: Seq<crate::map::Effect>, n: int)
    requires
        same_player(p, q),
    ensures
        same_player(
            crate::map::player_affected(p, effects, n),
            crate::map::player_affected(q, effects, n),
        ),
    decreases n,
{
    if !(n <= 0 || n > effects.len()) {
        lemma_player_affected(p, q, effects, n - 1);
    }
}

/// The effects on alike floors take alike players to alike players.
pub proof fn lemma_effects_on_player(f1: Floor, f2: Floor, p: Player, q: Player)
    requires
        same_tiles(f1.objects@, f2.objects@),
        f1.wf(),
        same_player(p, q),
    ensures
        same_player(
            crate::map::player_affected(
                p,
                crate::map::effects_at(&f1, crate::map::tile_of(p.polygon().center)),
                crate::map::effects_at(&f1, crate::map::tile_of(p.polygon().center)).len() as int,
            ),
            crate::map::player_affected(
                q,
                crate::map::effects_at(&f2, crate::map::tile_of(q.polygon().center)),
                crate::map::effects_at(&f2, crate::map::tile_of(q.polygon().center)).len() as int,
            ),
        ),
{
    let tile = crate::map::tile_of(p.polygon().center);
    assert(tile == crate::map::tile_of(q.polygon().center));
    lemma_effects_at(f1, f2, tile);
    let effects = crate::map::effects_at(&f1, tile);
    lemma_player_affected(p, q, effects, effects.len() as int);
}

/// The effects on alike floors take a monster to the same monster.
pub proof fn lemma_effects_on_monster(f1: Floor, f2: Floor, m: MonsterView)
    requires
        same_tiles(f1.objects@, f2.objects@),
        f1.wf(),
    ensures
        crate::map::monster_affected(
            m,
            crate::map::effects_at(
                &f1,
                crate::map::tile_of(crate::monsters::monster_polygon(m).center),
            ),
            crate::map::effects_at(
                &f1,
                crate::map::tile_of(crate::monsters::monster_polygon(m).center),
            ).len() as int,
        ) == crate::map::monster_affected(
            m,
            crate::map::effects_at(
                &f2,
                crate::map::tile_of(crate::monsters::monster_polygon(m).center),
            ),
            crate::map::effects_at(
                &f2,
                crate::map::tile_of(crate::monsters::monster_polygon(m).center),
            ).len() as int,
        ),
{
    lemma_effects_at(f1, f2, crate::map::tile_of(crate::monsters::monster_polygon(m).center));
}

/// The effects on the tiles take alike floors to alike floors.
pub proof fn lemma_effects_on_level(f1: FloorInfo, f2: FloorInfo, g1: FloorInfo, g2: FloorInfo)
    requires
        same_level(f1, f2),
        f1.floor.wf(),
        f1.same_but_monsters_and_floor(g1),
        f2.same_but_monsters_and_floor(g2),
        g1.monsters@.len() == f1.monsters@.len(),
        g2.monsters@.len() == f2.monsters@.len(),
        forall|i: int|
            0 <= i < f1.monsters@.len() ==> (#[trigger] g1.monsters@[i])@
                == crate::map::monster_affected(
                f1.monsters@[i]@,
                crate::map::effects_at(
                    &f1.floor,
                    crate::map::tile_of(crate::monsters::monster_polygon(f1.monsters@[i]@).center),
                ),
                crate::map::effects_at(
                    &f1.floor,
                    crate::map::tile_of(crate::monsters::monster_polygon(f1.monsters@[i]@).center),
                ).len() as int,
            ),
        forall|i: int|
            0 <= i < f2.monsters@.len() ==> (#[trigger] g2.monsters@[i])@
                == crate::map::monster_affected(
                f2.monsters@[i]@,
                crate::map::effects_at(
                    &f2.floor,
                    crate::map::tile_of(crate::monsters::monster_polygon(f2.monsters@[i]@).center),
                ),
                crate::map::effects_at(
                    &f2.floor,
                    crate::map::tile_of(crate::monsters::monster_polygon(f2.monsters@[i]@).center),
                ).len() as int,
            ),
        g1.floor.objects@.len() == f1.floor.objects@.len(),
        g2.floor.objects@.len() == f2.floor.objects@.len(),
        forall|i: int|
            0 <= i < f1.floor.objects@.len() ==> #[trigger] g1.floor.objects@[i] == (Object {
                effects: g1.floor.objects@[i].effects,
                ..f1.floor.objects@[i]
            }) && g1.floor.objects@[i].effects@ == crate::map::tick_effects(
                f1.floor.objects@[i].effects@,
            ),
        forall|i: int|
            0 <= i < f2.floor.objects@.len() ==> #[trigger] g2.floor.objects@[i] == (Object {
                effects: g2.floor.objects@[i].effects,
                ..f2.floor.objects@[i]
            }) && g2.floor.objects@[i].effects@ == crate::map::tick_effects(
                f2.floor.objects@[i].effects@,
            ),
    ensures
        same_level(g1, g2),
{
    lemma_monster_views(f1.monsters@, f2.monsters@);
    lemma_monster_views(g1.monsters@, g2.monsters@);
    assert forall|i: int| 0 <= i < g1.monsters@.len() implies (#[trigger] g1.monsters@[i])@
        == g2.monsters@[i]@ by {
        assert(f1.monsters@[i]@ == f2.monsters@[i]@);
        lemma_effects_on_monster(f1.floor, f2.floor, f1.monsters@[i]@);
    }
    assert forall|i: int| 0 <= i < g1.floor.objects@.len() implies same_object(
        #[trigger] g1.floor.objects@[i],
        g2.floor.objects@[i],
    ) by {
        assert(same_object(f1.floor.objects@[i], f2.floor.objects@[i]));
    }
}

/// The effects on the tiles take alike states to alike states.
pub proof fn lemma_effects_stepped(b1: GameState, b2: GameState, a1: GameState, a2: GameState)
    requires
        same_state(b1, b2),
        b1.wf(),
        b1.same_frame(a1),
        b2.same_frame(a2),
        a1.rng == b1.rng,
        a2.rng == b2.rng,
        a1.attacks == b1.attacks,
        a2.attacks == b2.attacks,
        effects_stepped(b1, a1),
        effects_stepped(b2, a2),
    ensures
        same_state(a1, a2),
{
    reveal(same_state);
    lemma_same_floor(b1, b2);
    let f1 = b1.floor();
    let f2 = b2.floor();
    assert forall|i: int| 0 <= i < a1.players@.len() implies same_player(
        #[trigger] a1.players@[i],
        a2.players@[i],
    ) by {
        assert(same_player(b1.players@[i], b2.players@[i]));
        lemma_effects_on_player(f1.floor, f2.floor, b1.players@[i], b2.players@[i]);
    }
    lemma_effects_on_level(f1, f2, a1.floor(), a2.floor());
    lemma_same_but_floor(b1, b2, a1, a2);
}

} // verus!
