//! The inputs of the players take alike states to alike states.

use vstd::prelude::*;
use crate::attacks::AttackObj;
use crate::init_game::{input_step, inputs_applied, inputs_chain, GameState};
use crate::input::PlayerInput;
use crate::map::{Floor, Object};
use crate::math::AsPolygon;
use crate::monsters::{monster_views, MonsterView};
use crate::player::Player;
use crate::replay::{
    lemma_same_but_floor, lemma_same_floor, lemma_same_party_size, same_level, same_object,
    same_player, same_state, same_tiles,
};
use crate::replay::players::{lemma_attack_started, lemma_attacked, lemma_moved_player};

verus! {

/// Turning and moving as the input asks takes alike players to alike
/// players.
pub proof fn lemma_moved_by_input(p: Player, q: Player, input: PlayerInput, f1: Floor, f2: Floor)
    requires
        same_player(p, q),
        same_tiles(f1.objects@, f2.objects@),
    ensures
        same_player(
            crate::init_game::moved_by_input(p, input, &f1),
            crate::init_game::moved_by_input(q, input, &f2),
        ),
{
    let turned1 = Player { angle: input.rotation, ..p };
    let turned2 = Player { angle: input.rotation, ..q };
    lemma_moved_player(turned1, turned2, input.movement_angle, None, f1, f2);
}

/// Turning, moving and attacking from the primary slot takes alike
/// players to alike players.
pub proof fn lemma_struck_player(
    p: Player,
    q: Player,
    input: PlayerInput,
    i: usize,
    f1: Floor,
    f2: Floor,
)
    requires
        same_player(p, q),
        same_tiles(f1.objects@, f2.objects@),
    ensures
        same_player(
            crate::init_game::struck_player(p, input, i, &f1),
            crate::init_game::struck_player(q, input, i, &f2),
        ),
{
    lemma_moved_by_input(p, q, input, f1, f2);
    lemma_attacked(
        crate::init_game::moved_by_input(p, input, &f1),
        crate::init_game::moved_by_input(q, input, &f2),
        Some(i),
        f1,
        f2,
        true,
    );
}

/// The input of a player takes alike players to alike players.
pub proof fn lemma_player_after_input(
    p: Player,
    q: Player,
    input: PlayerInput,
    i: usize,
    f1: Floor,
    f2: Floor,
)
    requires
        same_player(p, q),
        same_tiles(f1.objects@, f2.objects@),
    ensures
        same_player(
            crate::init_game::player_after_input(p, input, i, &f1),
            crate::init_game::player_after_input(q, input, i, &f2),
        ),
{
    lemma_struck_player(p, q, input, i, f1, f2);
    lemma_attacked(
        crate::init_game::struck_player(p, input, i, &f1),
        crate::init_game::struck_player(q, input, i, &f2),
        Some(i),
        f1,
        f2,
        false,
    );
}

/// The input of alike players leaves the same attacks in flight.
pub proof fn lemma_attacks_after_input(
    attacks: Seq<AttackObj>,
    p: Player,
    q: Player,
    input: PlayerInput,
    i: usize,
    f1: Floor,
    f2: Floor,
)
    requires
        same_player(p, q),
        same_tiles(f1.objects@, f2.objects@),
    ensures
        crate::init_game::attacks_after_input(attacks, p, input, i, &f1)
            == crate::init_game::attacks_after_input(attacks, q, input, i, &f2),
{
    lemma_moved_by_input(p, q, input, f1, f2);
    lemma_struck_player(p, q, input, i, f1, f2);
    lemma_attack_started(
        crate::init_game::moved_by_input(p, input, &f1),
        crate::init_game::moved_by_input(q, input, &f2),
        Some(i),
        true,
    );
    lemma_attack_started(
        crate::init_game::struck_player(p, input, i, &f1),
        crate::init_game::struck_player(q, input, i, &f2),
        Some(i),
        false,
    );
}

/// Alike tiles have the same doors in reach, all of them places of tiles
/// with a door.
pub proof fn lemma_doors_in_reach(
    o1: Seq<Object>,
    o2: Seq<Object>,
    monsters: Seq<MonsterView>,
    from: crate::math::IVec2,
    n: int,
)
    requires
        same_tiles(o1, o2),
    ensures
        crate::player::doors_in_reach(o1, monsters, from, n) == crate::player::doors_in_reach(
            o2,
            monsters,
            from,
            n,
        ),
        forall|k: int|
            0 <= k < crate::player::doors_in_reach(o1, monsters, from, n).len() ==> (
            #[trigger] crate::player::doors_in_reach(o1, monsters, from, n)[k]) < o1.len(),
    decreases n,
{
    if !(n <= 0 || n > o1.len()) {
        lemma_doors_in_reach(o1, o2, monsters, from, n - 1);
        assert(same_object(o1[n - 1], o2[n - 1]));
        let before = crate::player::doors_in_reach(o1, monsters, from, n - 1);
        let last = (n - 1) as usize;
        assert(last <= n - 1);
        assert forall|k: int|
            0 <= k < crate::player::doors_in_reach(o1, monsters, from, n).len() implies (
        #[trigger] crate::player::doors_in_reach(o1, monsters, from, n)[k]) < o1.len() by {
            if k < before.len() {
                assert(before[k] < o1.len());
            }
        }
    }
}

/// The same door is meant on alike tiles, and it is one of the places.
pub proof fn lemma_door_meant(
    o1: Seq<Object>,
    o2: Seq<Object>,
    places: Seq<usize>,
    entity: crate::math::Polygon,
    door_interaction: crate::player::DoorInteraction,
    n: int,
)
    requires
        same_tiles(o1, o2),
        forall|k: int| 0 <= k < places.len() ==> (#[trigger] places[k]) < o1.len(),
    ensures
        crate::player::door_meant(o1, places, entity, door_interaction, n)
            == crate::player::door_meant(o2, places, entity, door_interaction, n),
        crate::player::door_meant(o1, places, entity, door_interaction, n) matches Some(place)
            ==> place < o1.len(),
    decreases n,
{
    if !(n <= 0 || n > places.len()) {
        lemma_door_meant(o1, o2, places, entity, door_interaction, n - 1);
        assert(places[n - 1] < o1.len());
        match crate::player::door_meant(o1, places, entity, door_interaction, n - 1) {
            Some(best) => {
                assert(same_object(o1[best as int], o2[best as int]));
                assert(same_object(o1[places[n - 1] as int], o2[places[n - 1] as int]));
            },
            None => {},
        }
    }
}

/// Working a door takes alike tiles to alike tiles.
pub proof fn lemma_doors_after(
    o1: Seq<Object>,
    o2: Seq<Object>,
    monsters: Seq<MonsterView>,
    entity: crate::math::Polygon,
    door_interaction: crate::player::DoorInteraction,
)
    requires
        same_tiles(o1, o2),
    ensures
        same_tiles(
            crate::player::doors_after(o1, monsters, entity, door_interaction),
            crate::player::doors_after(o2, monsters, entity, door_interaction),
        ),
{
    reveal(crate::player::doors_after);
    let from = crate::map::tile_of(entity.center);
    lemma_doors_in_reach(o1, o2, monsters, from, o1.len() as int);
    let places = crate::player::doors_in_reach(o1, monsters, from, o1.len() as int);
    lemma_door_meant(o1, o2, places, entity, door_interaction, places.len() as int);
    match crate::player::door_meant(o1, places, entity, door_interaction, places.len() as int) {
        Some(place) => {
            assert(same_object(o1[place as int], o2[place as int]));
            let n1 = o1.update(
                place as int,
                crate::player::door_worked(o1[place as int], door_interaction),
            );
            let n2 = o2.update(
                place as int,
                crate::player::door_worked(o2[place as int], door_interaction),
            );
            assert forall|k: int| 0 <= k < n1.len() implies same_object(#[trigger] n1[k], n2[k]) by {
                assert(same_object(o1[k], o2[k]));
            }
        },
        None => {},
    }
}

/// The doors that the input works take alike tiles to alike tiles.
pub proof fn lemma_tiles_after_input(
    o1: Seq<Object>,
    o2: Seq<Object>,
    monsters: Seq<MonsterView>,
    p: Player,
    q: Player,
    input: PlayerInput,
)
    requires
        same_tiles(o1, o2),
        same_player(p, q),
    ensures
        same_tiles(
            crate::init_game::tiles_after_input(o1, monsters, p, input),
            crate::init_game::tiles_after_input(o2, monsters, q, input),
        ),
{
    assert(p.polygon() == q.polygon());
    lemma_doors_after(o1, o2, monsters, p.polygon(), crate::player::DoorInteraction::Opening);
    let opened1 = if crate::input::has_flag(input.flags, crate::input::OPENING_DOOR) {
        crate::player::doors_after(o1, monsters, p.polygon(), crate::player::DoorInteraction::Opening)
    } else {
        o1
    };
    let opened2 = if crate::input::has_flag(input.flags, crate::input::OPENING_DOOR) {
        crate::player::doors_after(o2, monsters, p.polygon(), crate::player::DoorInteraction::Opening)
    } else {
        o2
    };
    lemma_doors_after(
        opened1,
        opened2,
        monsters,
        p.polygon(),
        crate::player::DoorInteraction::Closing,
    );
}

/// The input of one player takes alike scenes to alike scenes.
pub proof fn lemma_input_applied(
    b1: crate::init_game::Scene,
    b2: crate::init_game::Scene,
    a1: crate::init_game::Scene,
    a2: crate::init_game::Scene,
    input: PlayerInput,
    i: usize,
)
    requires
        same_player(b1.player, b2.player),
        b1.attacks == b2.attacks,
        same_level(b1.floor, b2.floor),
        crate::init_game::input_applied(b1, a1, input, i),
        crate::init_game::input_applied(b2, a2, input, i),
    ensures
        same_player(a1.player, a2.player),
        a1.attacks == a2.attacks,
        same_level(a1.floor, a2.floor),
{
    lemma_player_after_input(b1.player, b2.player, input, i, b1.floor.floor, b2.floor.floor);
    lemma_attacks_after_input(
        b1.attacks,
        b1.player,
        b2.player,
        input,
        i,
        b1.floor.floor,
        b2.floor.floor,
    );
    lemma_tiles_after_input(
        b1.floor.floor.objects@,
        b2.floor.floor.objects@,
        monster_views(b1.floor.monsters@),
        a1.player,
        a2.player,
        input,
    );
}

/// The input of one player takes alike states to alike states.
pub proof fn lemma_input_step(
    b1: GameState,
    b2: GameState,
    a1: GameState,
    a2: GameState,
    input: PlayerInput,
    k: int,
)
    requires
        same_state(b1, b2),
        b1.map.current_floor_index < b1.map.rooms@.len(),
        input_step(b1, a1, input, k),
        input_step(b2, a2, input, k),
    ensures
        same_state(a1, a2),
        a1.map.current_floor_index < a1.map.rooms@.len(),
{
    reveal(same_state);
    lemma_same_floor(b1, b2);
    assert(same_player(b1.players@[k], b2.players@[k]));
    lemma_input_applied(
        crate::init_game::Scene { player: b1.players@[k], attacks: b1.attacks@, floor: b1.floor() },
        crate::init_game::Scene { player: b2.players@[k], attacks: b2.attacks@, floor: b2.floor() },
        crate::init_game::Scene { player: a1.players@[k], attacks: a1.attacks@, floor: a1.floor() },
        crate::init_game::Scene { player: a2.players@[k], attacks: a2.attacks@, floor: a2.floor() },
        input,
        k as usize,
    );
    assert forall|j: int| 0 <= j < a1.players@.len() implies same_player(
        #[trigger] a1.players@[j],
        a2.players@[j],
    ) by {
        assert(same_player(b1.players@[j], b2.players@[j]));
    }
    lemma_same_but_floor(b1, b2, a1, a2);
}

/// Whether the input `input` of the player with index `k` leads from
/// `before`, with the party on one of the floors, to `after`.
#[verifier::opaque]
pub open spec fn input_led(before: GameState, after: GameState, input: PlayerInput, k: int) -> bool {
    before.map.current_floor_index < before.map.rooms@.len() && input_step(before, after, input, k)
}

/// The input of one player takes alike states to alike states.
pub proof fn lemma_input_led(
    b1: GameState,
    b2: GameState,
    a1: GameState,
    a2: GameState,
    input: PlayerInput,
    k: int,
)
    requires
        same_state(b1, b2),
        input_led(b1, a1, input, k),
        input_led(b2, a2, input, k),
    ensures
        same_state(a1, a2),
{
    reveal(input_led);
    lemma_input_step(b1, b2, a1, a2, input, k);
}

/// The inputs of the players, applied one after the other, take alike
/// states to alike states at every step.
pub proof fn lemma_inputs_chain(inputs: Seq<PlayerInput>, t1: Seq<GameState>, t2: Seq<GameState>, k: int)
    requires
        same_state(t1[0], t2[0]),
        t1.len() == t2.len(),
        forall|j: int|
            0 <= j < t1.len() - 1 ==> input_led(t1[j], t1[j + 1], #[trigger] inputs[j], j),
        forall|j: int|
            0 <= j < t2.len() - 1 ==> input_led(t2[j], t2[j + 1], #[trigger] inputs[j], j),
        0 <= k < t1.len(),
    ensures
        same_state(t1[k], t2[k]),
    decreases k,
{
    if k > 0 {
        lemma_inputs_chain(inputs, t1, t2, k - 1);
        let input = inputs[k - 1];
        assert(input_led(t1[k - 1], t1[k - 1 + 1], input, k - 1));
        assert(input_led(t2[k - 1], t2[k - 1 + 1], input, k - 1));
        lemma_input_led(t1[k - 1], t2[k - 1], t1[k], t2[k], input, k - 1);
    }
}

/// In a run of inputs the party is on one of the floors at every step.
pub proof fn lemma_chain_on_floor(
    before: GameState,
    after: GameState,
    inputs: Seq<PlayerInput>,
    trace: Seq<GameState>,
    k: int,
)
    requires
        before.map.current_floor_index < before.map.rooms@.len(),
        inputs_chain(before, after, inputs, trace),
        0 <= k < trace.len(),
    ensures
        trace[k].map.current_floor_index < trace[k].map.rooms@.len(),
    decreases k,
{
    if k > 0 {
        lemma_chain_on_floor(before, after, inputs, trace, k - 1);
        lemma_chain_step(before, after, inputs, trace, k - 1);
    }
}

/// Every step of a run of inputs leads on from a state with the party on
/// one of the floors.
pub proof fn lemma_chain_led(
    before: GameState,
    after: GameState,
    inputs: Seq<PlayerInput>,
    trace: Seq<GameState>,
)
    requires
        before.map.current_floor_index < before.map.rooms@.len(),
        inputs_chain(before, after, inputs, trace),
    ensures
        forall|j: int|
            0 <= j < trace.len() - 1 ==> input_led(trace[j], trace[j + 1], #[trigger] inputs[j], j),
{
    assert forall|j: int| 0 <= j < trace.len() - 1 implies input_led(
        trace[j],
        trace[j + 1],
        #[trigger] inputs[j],
        j,
    ) by {
        lemma_chain_on_floor(before, after, inputs, trace, j);
        lemma_chain_step(before, after, inputs, trace, j);
        reveal(input_led);
    }
}

/// Every step of a run of inputs is the input of one player.
pub proof fn lemma_chain_step(
    before: GameState,
    after: GameState,
    inputs: Seq<PlayerInput>,
    trace: Seq<GameState>,
    k: int,
)
    requires
        inputs_chain(before, after, inputs, trace),
        0 <= k < trace.len() - 1,
    ensures
        input_step(trace[k], trace[k + 1], inputs[k], k),
{
    let input = inputs[k];
}

/// The inputs of the players take alike states to alike states.
pub proof fn lemma_inputs_applied(
    b1: GameState,
    b2: GameState,
    a1: GameState,
    a2: GameState,
    inputs: Seq<PlayerInput>,
)
    requires
        same_state(b1, b2),
        b1.map.current_floor_index < b1.map.rooms@.len(),
        inputs_applied(b1, a1, inputs),
        inputs_applied(b2, a2, inputs),
    ensures
        same_state(a1, a2),
{
    let t1 = choose|t: Seq<GameState>| inputs_chain(b1, a1, inputs, t);
    let t2 = choose|t: Seq<GameState>| inputs_chain(b2, a2, inputs, t);
    lemma_same_party_size(b1, b2);
    lemma_chain_led(b1, a1, inputs, t1);
    lemma_chain_led(b2, a2, inputs, t2);
    lemma_inputs_chain(inputs, t1, t2, t1.len() - 1);
}

} // verus!
