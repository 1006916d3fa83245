//! A frame is deterministic: two states that are alike lead, under the same
//! inputs, to states that are alike. Two values are alike when they agree in
//! everything but which allocation holds their lists, so a snapshot and the
//! state that it was taken of are alike, and replaying the frames after a
//! snapshot ends in the state that the first run ended in.
//!
//! The law is proved phase by phase; each of the other files holds the
//! lemmas of one phase or of one kind of value. Games that start from the
//! same seed are alike as well, so that a game is a function of its seed
//! and of the inputs of its players.

pub mod attacks;
pub mod effects;
pub mod inputs;
pub mod monsters;
pub mod players;
pub mod starts;
pub mod tiles;
pub mod traps;

use vstd::prelude::*;
use crate::init_game::{advanced, frame_ran, FrameTrace, GameState};
use crate::input::PlayerInput;
use crate::map::{FloorInfo, Object, Room};
use crate::monsters::monster_views;
use crate::player::{Player, PlayerInventory};
use crate::replay::attacks::lemma_attacks_stepped;
use crate::replay::effects::lemma_effects_stepped;
use crate::replay::inputs::lemma_inputs_applied;
use crate::replay::monsters::lemma_monsters_stepped;
use crate::replay::players::{lemma_exit_checked, lemma_players_stepped};
use crate::replay::traps::lemma_traps_stepped;

verus! {

/// Whether two players agree in everything but which allocation holds
/// their spells and their items.
pub open spec fn same_player(a: Player, b: Player) -> bool {
    &&& a == (Player {
        spells: a.spells,
        inventory: PlayerInventory { items: a.inventory.items, ..b.inventory },
        ..b
    })
    &&& a.spells@ == b.spells@
    &&& a.inventory.items@ == b.inventory.items@
}

/// Whether two parties are alike, player by player.
pub open spec fn same_players(a: Seq<Player>, b: Seq<Player>) -> bool {
    &&& a.len() == b.len()
    &&& forall|i: int| 0 <= i < a.len() ==> same_player(#[trigger] a[i], b[i])
}

/// Whether two tiles agree in everything but which allocation holds their
/// items and their effects.
pub open spec fn same_object(a: Object, b: Object) -> bool {
    &&& a == (Object { items: a.items, effects: a.effects, ..b })
    &&& a.items@ == b.items@
    &&& a.effects@ == b.effects@
}

/// Whether two lists of tiles are alike, tile by tile.
pub open spec fn same_tiles(a: Seq<Object>, b: Seq<Object>) -> bool {
    &&& a.len() == b.len()
    &&& forall|i: int| 0 <= i < a.len() ==> same_object(#[trigger] a[i], b[i])
}

/// Whether two rooms have the same corners and the same doors.
pub open spec fn same_room(a: Room, b: Room) -> bool {
    &&& a.top_left == b.top_left
    &&& a.bottom_right == b.bottom_right
    &&& a.doors@ == b.doors@
}

/// Whether two lists of rooms are alike, room by room.
pub open spec fn same_rooms(a: Seq<Room>, b: Seq<Room>) -> bool {
    &&& a.len() == b.len()
    &&& forall|i: int| 0 <= i < a.len() ==> same_room(#[trigger] a[i], b[i])
}

/// Whether two levels are alike: the same kinds of monsters and items, the
/// same way in and out, alike rooms and tiles, and monsters with the same
/// views.
pub open spec fn same_level(a: FloorInfo, b: FloorInfo) -> bool {
    &&& a.spawn == b.spawn
    &&& a.monster_types@ == b.monster_types@
    &&& a.item_types@ == b.item_types@
    &&& monster_views(a.monsters@) == monster_views(b.monsters@)
    &&& same_tiles(a.floor.objects@, b.floor.objects@)
    &&& same_rooms(a.rooms@, b.rooms@)
    &&& same_object(a.exit, b.exit)
}

/// Whether two states of the game are alike: the same frame, the same
/// state of the generator, the same attacks in flight, the party on the same
/// floor, and alike players and levels.
#[verifier::opaque]
pub open spec fn same_state(a: GameState, b: GameState) -> bool {
    &&& a.frame == b.frame
    &&& a.rng == b.rng
    &&& same_players(a.players@, b.players@)
    &&& a.attacks@ == b.attacks@
    &&& a.map.current_floor_index == b.map.current_floor_index
    &&& a.map.rooms@.len() == b.map.rooms@.len()
    &&& forall|k: int|
        0 <= k < a.map.rooms@.len() ==> same_level(#[trigger] a.map.rooms@[k], b.map.rooms@[k])
}

/// Monsters with the same views are as many, and each has the view of the
/// one at its place.
pub proof fn lemma_monster_views(a: Seq<crate::monsters::MonsterObj>, b: Seq<crate::monsters::MonsterObj>)
    ensures
        monster_views(a) == monster_views(b) <==> (a.len() == b.len() && forall|i: int|
            0 <= i < a.len() ==> (#[trigger] a[i])@ == b[i]@),
{
    if monster_views(a) == monster_views(b) {
        assert(a.len() == monster_views(a).len());
        assert(b.len() == monster_views(b).len());
        assert forall|i: int| 0 <= i < a.len() implies (#[trigger] a[i])@ == b[i]@ by {
            assert(monster_views(a)[i] == a[i]@);
            assert(monster_views(b)[i] == b[i]@);
        }
    }
    if a.len() == b.len() && forall|i: int| 0 <= i < a.len() ==> (#[trigger] a[i])@ == b[i]@ {
        assert(monster_views(a) =~= monster_views(b));
    }
}

/// The floors that the party is on in alike states are alike.
pub proof fn lemma_same_floor(a: GameState, b: GameState)
    requires
        same_state(a, b),
        a.map.current_floor_index < a.map.rooms@.len(),
    ensures
        same_level(a.floor(), b.floor()),
{
    reveal(same_state);
    assert(same_level(
        a.map.rooms@[a.map.current_floor_index as int],
        b.map.rooms@[a.map.current_floor_index as int],
    ));
}

/// States that are alike but for the floor that the party is on, with
/// alike floors there, are alike.
pub proof fn lemma_same_but_floor(b1: GameState, b2: GameState, a1: GameState, a2: GameState)
    requires
        same_state(b1, b2),
        b1.map.current_floor_index < b1.map.rooms@.len(),
        b1.same_frame(a1),
        b2.same_frame(a2),
        a1.rng == a2.rng,
        same_players(a1.players@, a2.players@),
        a1.attacks@ == a2.attacks@,
        same_level(a1.floor(), a2.floor()),
    ensures
        same_state(a1, a2),
{
    reveal(same_state);
    assert forall|k: int| 0 <= k < a1.map.rooms@.len() implies same_level(
        #[trigger] a1.map.rooms@[k],
        a2.map.rooms@[k],
    ) by {
        if k != b1.map.current_floor_index {
            assert(same_level(b1.map.rooms@[k], b2.map.rooms@[k]));
        }
    }
}

/// Alike states have as many players and as many floors, with the party
/// on the same floor.
pub proof fn lemma_same_party_size(a: GameState, b: GameState)
    requires
        same_state(a, b),
    ensures
        a.players@.len() == b.players@.len(),
        a.map.rooms@.len() == b.map.rooms@.len(),
        a.map.current_floor_index == b.map.current_floor_index,
{
    reveal(same_state);
}

/// Counting the frame takes alike states to alike states.
pub proof fn lemma_counted(b1: GameState, b2: GameState, c1: GameState, c2: GameState)
    requires
        same_state(b1, b2),
        c1.frame == (if b1.frame == u64::MAX {
            0
        } else {
            b1.frame + 1
        }),
        c2.frame == (if b2.frame == u64::MAX {
            0
        } else {
            b2.frame + 1
        }),
        c1.players == b1.players,
        c1.attacks == b1.attacks,
        c1.map == b1.map,
        c1.rng == b1.rng,
        c2.players == b2.players,
        c2.attacks == b2.attacks,
        c2.map == b2.map,
        c2.rng == b2.rng,
    ensures
        same_state(c1, c2),
{
    reveal(same_state);
}

/// One frame takes alike states, under the same inputs, to alike states
/// through alike states between its phases.
pub proof fn lemma_frame_ran(
    b1: GameState,
    b2: GameState,
    a1: GameState,
    a2: GameState,
    inputs: Seq<PlayerInput>,
    t1: FrameTrace,
    t2: FrameTrace,
)
    requires
        same_state(b1, b2),
        b1.wf(),
        frame_ran(b1, a1, inputs, t1),
        frame_ran(b2, a2, inputs, t2),
    ensures
        same_state(a1, a2),
{
    lemma_counted(b1, b2, t1.counted, t2.counted);
    lemma_inputs_applied(t1.counted, t2.counted, t1.after_inputs, t2.after_inputs, inputs);
    lemma_attacks_stepped(t1.after_inputs, t2.after_inputs, t1.after_attacks, t2.after_attacks);
    lemma_players_stepped(t1.after_attacks, t2.after_attacks, t1.after_players, t2.after_players);
    lemma_traps_stepped(t1.after_players, t2.after_players, t1.after_traps, t2.after_traps);
    lemma_effects_stepped(t1.after_traps, t2.after_traps, t1.after_effects, t2.after_effects);
    lemma_monsters_stepped(t1.after_effects, t2.after_effects, t1.after_monsters, t2.after_monsters);
    lemma_exit_checked(t1.after_monsters, t2.after_monsters, a1, a2);
}

/// A frame is deterministic: states that are alike lead, under the same
/// inputs, to states that are alike.
pub proof fn lemma_advance_deterministic(
    b1: GameState,
    b2: GameState,
    a1: GameState,
    a2: GameState,
    inputs: Seq<PlayerInput>,
)
    requires
        same_state(b1, b2),
        b1.wf(),
        advanced(b1, a1, inputs),
        advanced(b2, a2, inputs),
    ensures
        same_state(a1, a2),
{
    let t1 = choose|t: FrameTrace| frame_ran(b1, a1, inputs, t);
    let t2 = choose|t: FrameTrace| frame_ran(b2, a2, inputs, t);
    lemma_frame_ran(b1, b2, a1, a2, inputs, t1, t2);
}

/// Run twice from one state under the same inputs, a frame ends in alike
/// states.
pub proof fn lemma_advance_repeatable(
    before: GameState,
    a1: GameState,
    a2: GameState,
    inputs: Seq<PlayerInput>,
)
    requires
        before.wf(),
        advanced(before, a1, inputs),
        advanced(before, a2, inputs),
    ensures
        same_state(a1, a2),
{
    lemma_same_state_reflexive(before);
    lemma_advance_deterministic(before, before, a1, a2, inputs);
}

/// Every state is like itself.
pub proof fn lemma_same_state_reflexive(s: GameState)
    ensures
        same_state(s, s),
{
    reveal(same_state);
}

/// Whether one frame under `inputs` leads from the well formed state
/// `before` to `after`.
#[verifier::opaque]
pub open spec fn frame_led(before: GameState, after: GameState, inputs: Seq<PlayerInput>) -> bool {
    before.wf() && advanced(before, after, inputs)
}

/// A frame from a well formed state takes alike states to alike states.
pub proof fn lemma_frame_led(
    b1: GameState,
    b2: GameState,
    a1: GameState,
    a2: GameState,
    inputs: Seq<PlayerInput>,
)
    requires
        same_state(b1, b2),
        frame_led(b1, a1, inputs),
        frame_led(b2, a2, inputs),
    ensures
        same_state(a1, a2),
{
    reveal(frame_led);
    lemma_advance_deterministic(b1, b2, a1, a2, inputs);
}

/// Whether `trace` is the run of states through which the frames under
/// `batches`, one batch of inputs for each frame, lead from `before` to
/// `after`.
pub open spec fn frames_chain(
    before: GameState,
    after: GameState,
    batches: Seq<Seq<PlayerInput>>,
    trace: Seq<GameState>,
) -> bool {
    &&& trace.len() == batches.len() + 1
    &&& trace[0] == before
    &&& trace[trace.len() - 1] == after
    &&& forall|k: int|
        0 <= k < batches.len() ==> frame_led(trace[k], trace[k + 1], #[trigger] batches[k])
}

/// Whether the frames under `batches` lead from `before` to `after`.
pub open spec fn frames_ran(before: GameState, after: GameState, batches: Seq<Seq<PlayerInput>>) -> bool {
    exists|trace: Seq<GameState>| frames_chain(before, after, batches, trace)
}

/// Two runs of frames from alike states under the same inputs pass
/// through alike states.
pub proof fn lemma_frames_chain(
    b1: GameState,
    b2: GameState,
    a1: GameState,
    a2: GameState,
    batches: Seq<Seq<PlayerInput>>,
    t1: Seq<GameState>,
    t2: Seq<GameState>,
    k: int,
)
    requires
        same_state(b1, b2),
        frames_chain(b1, a1, batches, t1),
        frames_chain(b2, a2, batches, t2),
        0 <= k <= batches.len(),
    ensures
        same_state(t1[k], t2[k]),
    decreases k,
{
    if k > 0 {
        lemma_frames_chain(b1, b2, a1, a2, batches, t1, t2, k - 1);
        let batch = batches[k - 1];
        assert(frame_led(t1[k - 1], t1[k - 1 + 1], batch));
        assert(frame_led(t2[k - 1], t2[k - 1 + 1], batch));
        lemma_frame_led(t1[k - 1], t2[k - 1], t1[k], t2[k], batch);
    }
}

/// Replaying frames is deterministic: from alike states, such as a
/// snapshot and the state that it was taken of, the same inputs frame by
/// frame lead to alike states.
pub proof fn lemma_replay_deterministic(
    b1: GameState,
    b2: GameState,
    a1: GameState,
    a2: GameState,
    batches: Seq<Seq<PlayerInput>>,
)
    requires
        same_state(b1, b2),
        frames_ran(b1, a1, batches),
        frames_ran(b2, a2, batches),
    ensures
        same_state(a1, a2),
{
    let t1 = choose|t: Seq<GameState>| frames_chain(b1, a1, batches, t);
    let t2 = choose|t: Seq<GameState>| frames_chain(b2, a2, batches, t);
    lemma_frames_chain(b1, b2, a1, a2, batches, t1, t2, batches.len() as int);
}

} // verus!
