//! The whole state of a game, and how one frame changes it.

use vstd::prelude::*;
use crate::attacks::{
    attacked, attacks_ran, player_attack, survivors, update_attacks, with_attack, AttackObj, World,
};
use crate::enchantments::Enchantable;
use crate::input::{
    has_flag, PlayerInput, CLOSING_DOOR, MOVING, OPENING_DOOR, PRIMARY_ATTACK, SECONDARY_ATTACK,
};
use crate::map::{
    live_traps, monster_affected, effects_at, player_affected, set_effects, tick_effects, tile_of,
    traps_checked, trigger_traps, update_effects, DungeonMap, FloorInfo, GenerationError, Object,
};
use crate::math::{AsPolygon, Vec2};
use crate::monsters::{
    fought_all, monster_polygon, monster_views, moved_all, update_monsters, Aftermath,
};
use crate::player::{
    cooled_down, doors_after, interact_with_door, move_player, moved_player, update_cooldown,
    DoorInteraction, Player, PlayerClass,
};
use crate::rng::Rng;

verus! {

/// Everything that the simulation changes. A copy of it is all that it
/// takes to go back to a frame and play it again.
#[derive(Clone, Debug)]
pub struct GameState {
    pub frame: u64,
    pub players: Vec<Player>,
    pub attacks: Vec<AttackObj>,
    pub map: DungeonMap,
    pub rng: Rng,
}

/// One player of the given class for each of `num_players`, all at the
/// place where the current floor is entered.
pub fn init_players(class: PlayerClass, map: &DungeonMap, num_players: usize) -> (players: Vec<Player>)
    requires
        map.current_floor_index < map.rooms@.len(),
    ensures
        players@.len() == num_players,
        forall|i: int|
            0 <= i < players@.len() ==> crate::player::newly_made(
                #[trigger] players@[i],
                class,
                map.rooms@[map.current_floor_index as int].spawn,
            ),
{
    let mut players: Vec<Player> = Vec::new();
    let mut i: usize = 0;
    while i < num_players
        invariant
            i <= num_players,
            map.current_floor_index < map.rooms@.len(),
            players@.len() == i,
            forall|j: int|
                0 <= j < players@.len() ==> crate::player::newly_made(
                    #[trigger] players@[j],
                    class,
                    map.rooms@[map.current_floor_index as int].spawn,
                ),
        decreases num_players - i,
    {
        players.push(Player::new(class, map.current_floor().current_spawn()));
        i = i + 1;
    }
    players
}

/// What the input of one player acts on: the player, the attacks in
/// flight and the floor.
pub struct Scene {
    pub player: Player,
    pub attacks: Seq<AttackObj>,
    pub floor: FloorInfo,
}

/// The player after the input has been applied to it: the player turns
/// to where the input aims; moves, if asked to; and attacks from the primary
/// and then from the secondary slot, if asked to.
pub open spec fn player_after_input(player: Player, input: PlayerInput, i: usize, floor: &crate::map::Floor) -> Player {
    let struck = struck_player(player, input, i, floor);
    if has_flag(input.flags, SECONDARY_ATTACK) {
        attacked(struck, Some(i), floor, false)
    } else {
        struck
    }
}

/// The player after turning and moving as the input asks.
pub open spec fn moved_by_input(player: Player, input: PlayerInput, floor: &crate::map::Floor) -> Player {
    let turned = Player { angle: input.rotation, ..player };
    if has_flag(input.flags, MOVING) {
        moved_player(turned, input.movement_angle, None, floor)
    } else {
        turned
    }
}

/// The player after turning, moving and attacking from the primary slot as
/// the input asks.
pub open spec fn struck_player(player: Player, input: PlayerInput, i: usize, floor: &crate::map::Floor) -> Player {
    let moved = moved_by_input(player, input, floor);
    if has_flag(input.flags, PRIMARY_ATTACK) {
        attacked(moved, Some(i), floor, true)
    } else {
        moved
    }
}

/// The attacks in flight after the input has been applied.
pub open spec fn attacks_after_input(
    attacks: Seq<AttackObj>,
    player: Player,
    input: PlayerInput,
    i: usize,
    floor: &crate::map::Floor,
) -> Seq<AttackObj> {
    let first = if has_flag(input.flags, PRIMARY_ATTACK) {
        with_attack(attacks, moved_by_input(player, input, floor), Some(i), true)
    } else {
        attacks
    };
    if has_flag(input.flags, SECONDARY_ATTACK) {
        with_attack(first, struck_player(player, input, i, floor), Some(i), false)
    } else {
        first
    }
}

/// The tiles after the player, as the input has left it, has opened and
/// then closed the door that is meant, as far as the input asks for it.
pub open spec fn tiles_after_input(
    objects: Seq<Object>,
    monsters: Seq<crate::monsters::MonsterView>,
    player: Player,
    input: PlayerInput,
) -> Seq<Object> {
    let opened = if has_flag(input.flags, OPENING_DOOR) {
        doors_after(objects, monsters, player.polygon(), DoorInteraction::Opening)
    } else {
        objects
    };
    if has_flag(input.flags, CLOSING_DOOR) {
        doors_after(opened, monsters, player.polygon(), DoorInteraction::Closing)
    } else {
        opened
    }
}

/// Whether the input of the player with index `i` leads from `before` to
/// `after`.
pub open spec fn input_applied(before: Scene, after: Scene, input: PlayerInput, i: usize) -> bool {
    &&& after.player == player_after_input(before.player, input, i, &before.floor.floor)
    &&& after.attacks == attacks_after_input(
        before.attacks,
        before.player,
        input,
        i,
        &before.floor.floor,
    )
    &&& before.floor.same_but_monsters_and_floor(after.floor)
    &&& after.floor.monsters == before.floor.monsters
    &&& after.floor.floor.objects@ == tiles_after_input(
        before.floor.floor.objects@,
        monster_views(before.floor.monsters@),
        after.player,
        input,
    )
}

/// Applies the input of the player with index `i` to the player, the
/// attacks in flight and the floor.
pub fn act(player: &mut Player, i: usize, input: PlayerInput, attacks: &mut Vec<AttackObj>, floor: &mut FloorInfo)
    ensures
        input_applied(
            Scene { player: *old(player), attacks: old(attacks)@, floor: *old(floor) },
            Scene { player: *final(player), attacks: final(attacks)@, floor: *final(floor) },
            input,
            i,
        ),
        old(floor).floor.wf() ==> final(floor).floor.wf(),
{
    player.angle = input.rotation();
    if input.is_moving() {
        move_player(player, input.movement_angle(), None, &floor.floor);
    }
    if input.using_primary() {
        player_attack(player, Some(i), attacks, floor, true);
    }
    if input.using_secondary() {
        player_attack(player, Some(i), attacks, floor, false);
    }
    if input.opening_door() {
        interact_with_door(player, DoorInteraction::Opening, floor);
    }
    if input.closing_door() {
        interact_with_door(player, DoorInteraction::Closing, floor);
    }
}

impl GameState {
    /// The party is on one of the floors, and every floor is well formed.
    pub open spec fn wf(&self) -> bool {
        self.map.wf()
    }

    /// The floor that the party is on.
    pub open spec fn floor(&self) -> FloorInfo {
        self.map.rooms@[self.map.current_floor_index as int]
    }

    /// Whether `after` differs from `self` at most in the players, the
    /// attacks, the generator and the floor that the party is on.
    pub open spec fn same_frame(&self, after: GameState) -> bool {
        &&& after.frame == self.frame
        &&& after.map.current_floor_index == self.map.current_floor_index
        &&& after.map.rooms@.len() == self.map.rooms@.len()
        &&& forall|k: int|
            0 <= k < self.map.rooms@.len() && k != self.map.current_floor_index
                ==> #[trigger] after.map.rooms@[k] == self.map.rooms@[k]
    }

    /// Whether `self` is the game that starts from `seed` with
    /// `num_players` players of the given class: no frame has passed and no
    /// attack is in flight, the floors of the dungeon were generated one
    /// after the other from the seeded generator, the party is on the first,
    /// and every player starts out where it is entered.
    #[verifier::opaque]
    pub open spec fn started(&self, class: PlayerClass, num_players: usize, seed: u64) -> bool {
        let begun = crate::rng::seeded(seed);
        &&& self.frame == 0
        &&& self.attacks@.len() == 0
        &&& self.rng.state == crate::map::floor_start(begun, crate::map::FLOORS as int)
        &&& self.map.current_floor_index == 0
        &&& self.map.rooms@.len() == crate::map::FLOORS
        &&& forall|k: int|
            0 <= k < self.map.rooms@.len() ==> (#[trigger] self.map.rooms@[k]).fresh()
                && crate::map::assembled(
                self.map.rooms@[k],
                crate::generation::planned_sites(crate::map::floor_start(begun, k)),
                crate::generation::planned_hallways(crate::map::floor_start(begun, k)),
                crate::generation::plan_end(crate::map::floor_start(begun, k)),
            )
        &&& self.players@.len() == num_players
        &&& forall|i: int|
            0 <= i < self.players@.len() ==> crate::player::newly_made(
                #[trigger] self.players@[i],
                class,
                self.map.rooms@[0].spawn,
            )
    }

    /// A new game: a dungeon generated from `seed`, with `num_players`
    /// players of the given class where the first floor is entered. The
    /// game is refused exactly if one of the floors comes out without a room
    /// that a hallway reaches.
    pub fn new(class: PlayerClass, num_players: usize, seed: u64) -> (r: Result<GameState, GenerationError>)
        ensures
            r is Ok <==> crate::map::floors_have_rooms(
                crate::rng::seeded(seed),
                crate::map::FLOORS as int,
            ),
            r matches Ok(state) ==> state.wf() && state.started(class, num_players, seed)
                && state.frame == 0 && state.players@.len() == num_players && state.attacks@.len()
                == 0 && state.floor().fresh(),
    {
        let mut rng = Rng::new(seed);
        let map = match DungeonMap::new(&mut rng) {
            Ok(map) => map,
            Err(e) => {
                return Err(e);
            },
        };
        let players = init_players(class, &map, num_players);
        let state = GameState { frame: 0, players, attacks: Vec::new(), map, rng };
        assert(state.started(class, num_players, seed)) by {
            reveal(GameState::started);
        }
        Ok(state)
    }

    /// Applies the input of the player with index `i`.
    pub fn apply_input(&mut self, i: usize, input: PlayerInput)
        requires
            old(self).wf(),
            i < old(self).players@.len(),
        ensures
            final(self).wf(),
            old(self).same_frame(*final(self)),
            final(self).rng == old(self).rng,
            final(self).players@.len() == old(self).players@.len(),
            forall|j: int|
                0 <= j < old(self).players@.len() && j != i ==> #[trigger] final(self).players@[j]
                    == old(self).players@[j],
            input_applied(
                Scene {
                    player: old(self).players@[i as int],
                    attacks: old(self).attacks@,
                    floor: old(self).floor(),
                },
                Scene {
                    player: final(self).players@[i as int],
                    attacks: final(self).attacks@,
                    floor: final(self).floor(),
                },
                input,
                i,
            ),
    {
        let index = self.map.current_floor_index;
        act(&mut self.players[i], i, input, &mut self.attacks, &mut self.map.rooms[index]);
    }

    /// Phase one of a frame: the inputs of the players are applied, player
    /// by player. Inputs without a player and players without an input are
    /// passed over.
    pub fn apply_inputs(&mut self, inputs: &Vec<PlayerInput>)
        requires
            old(self).wf(),
        ensures
            final(self).wf(),
            old(self).same_frame(*final(self)),
            final(self).rng == old(self).rng,
            final(self).players@.len() == old(self).players@.len(),
            inputs_applied(*old(self), *final(self), inputs@),
    {
        let ghost mut trace: Seq<GameState> = seq![*self];
        let mut i: usize = 0;
        while i < inputs.len() && i < self.players.len()
            invariant
                self.wf(),
                old(self).same_frame(*self),
                self.rng == old(self).rng,
                self.players@.len() == old(self).players@.len(),
                i <= inputs@.len(),
                i <= self.players@.len(),
                trace.len() == i + 1,
                trace[0] == *old(self),
                trace[i as int] == *self,
                forall|k: int|
                    0 <= k < i ==> input_step(#[trigger] trace[k], trace[k + 1], inputs@[k], k),
            decreases inputs@.len() - i,
        {
            let ghost before = *self;
            self.apply_input(i, inputs[i]);
            proof {
                let old_trace = trace;
                trace = trace.push(*self);
                assert forall|k: int| 0 <= k < i + 1 implies input_step(
                    #[trigger] trace[k],
                    trace[k + 1],
                    inputs@[k],
                    k,
                ) by {
                    if k < i {
                        assert(trace[k] == old_trace[k]);
                        assert(trace[k + 1] == old_trace[k + 1]);
                    } else {
                        assert(trace[k] == before);
                    }
                }
            }
            i = i + 1;
        }
        proof {
            assert(inputs_chain(*old(self), *self, inputs@, trace));
        }
    }

    /// Phase two of a frame: the attacks in flight are stepped.
    pub fn step_attacks(&mut self)
        requires
            old(self).wf(),
        ensures
            final(self).wf(),
            old(self).same_frame(*final(self)),
            attacks_stepped(*old(self), *final(self)),
            final(self).players@.len() == old(self).players@.len(),
    {
        let index = self.map.current_floor_index;
        update_attacks(&mut self.players, &mut self.map.rooms[index], &mut self.attacks, &mut self.rng);
        proof {
            let (results, trace) = choose|results: Seq<(AttackObj, bool)>, trace: Seq<World>|
                #![auto]
                attacks_ran(old(self).attacks@, results, trace, old(self).attacks@.len() as int)
                    && trace[0] == (World {
                    floor: old(self).floor(),
                    players: old(self).players@,
                    state: old(self).rng.state,
                }) && trace[old(self).attacks@.len() as int] == (World {
                    floor: self.floor(),
                    players: self.players@,
                    state: self.rng.state,
                }) && self.attacks@ == survivors(results);
            crate::attacks::lemma_attacks_keep_rooms(
                old(self).attacks@,
                results,
                trace,
                old(self).attacks@.len() as int,
            );
        }
    }

    /// Phase three of a frame: the cooldowns and the enchantments of the
    /// players lose a frame.
    pub fn step_players(&mut self)
        ensures
            players_stepped(*old(self), *final(self)),
    {
        let mut i: usize = 0;
        while i < self.players.len()
            invariant
                i <= self.players@.len(),
                self.map == old(self).map,
                self.frame == old(self).frame,
                self.attacks == old(self).attacks,
                self.rng == old(self).rng,
                self.players@.len() == old(self).players@.len(),
                forall|j: int|
                    0 <= j < i ==> player_stepped(
                        old(self).players@[j],
                        #[trigger] self.players@[j],
                    ),
                forall|j: int| i <= j < self.players@.len() ==> self.players@[j] == old(self).players@[j],
            decreases self.players@.len() - i,
        {
            update_cooldown(&mut self.players[i]);
            let ghost cooled = self.players@[i as int];
            self.players[i].update_enchantments();
            assert(cooled_down(old(self).players@[i as int], cooled) && self.players@[i as int]
                == cooled.enchantments_updated());
            assert(player_stepped(old(self).players@[i as int], self.players@[i as int]));
            i = i + 1;
        }
    }

    /// Phase four of a frame: the traps under the players go off.
    pub fn step_traps(&mut self)
        requires
            old(self).wf(),
        ensures
            final(self).wf(),
            traps_stepped(*old(self), *final(self)),
    {
        let index = self.map.current_floor_index;
        trigger_traps(&mut self.players, &mut self.map.rooms[index], &mut self.rng);
    }

    /// Phases five and six of a frame: the effects that lie on the tiles
    /// act on whoever stands there, and then lose a frame.
    pub fn step_effects(&mut self)
        requires
            old(self).wf(),
        ensures
            final(self).wf(),
            old(self).same_frame(*final(self)),
            final(self).attacks == old(self).attacks,
            final(self).rng == old(self).rng,
            effects_stepped(*old(self), *final(self)),
    {
        let index = self.map.current_floor_index;
        set_effects(&mut self.players, &mut self.map.rooms[index]);
        update_effects(&mut self.map.rooms[index].floor);
    }

    /// Phase seven of a frame: the monsters move, then attack, and the
    /// dead are removed.
    pub fn step_monsters(&mut self)
        requires
            old(self).wf(),
        ensures
            final(self).wf(),
            old(self).same_frame(*final(self)),
            monsters_stepped(*old(self), *final(self)),
            final(self).players@.len() == old(self).players@.len(),
    {
        let index = self.map.current_floor_index;
        update_monsters(
            &mut self.players,
            &mut self.map.rooms[index],
            &mut self.attacks,
            &mut self.rng,
        );
    }

    /// Phase eight of a frame: if a player touches the exit, the party
    /// goes down a floor.
    pub fn step_exit(&mut self)
        requires
            old(self).wf(),
        ensures
            final(self).wf(),
            exit_checked(*old(self), *final(self)),
    {
        let index = self.map.current_floor_index;
        if self.map.rooms[index].should_descend(&self.players) {
            self.map.descend(&mut self.players);
        }
    }
}

/// Whether one frame of cooldowns and then one frame of enchantments lead
/// from the player `before` to the player `after`.
pub open spec fn player_stepped(before: Player, after: Player) -> bool {
    exists|cooled: Player|
        #[trigger] cooled_down(before, cooled) && after == cooled.enchantments_updated()
}

/// Whether the input `input` of the player with index `k` leads from the
/// state `before` to the state `after`.
pub open spec fn input_step(before: GameState, after: GameState, input: PlayerInput, k: int) -> bool {
    &&& 0 <= k < before.players@.len()
    &&& after.players@.len() == before.players@.len()
    &&& before.same_frame(after)
    &&& after.rng == before.rng
    &&& forall|j: int|
        0 <= j < before.players@.len() && j != k ==> #[trigger] after.players@[j]
            == before.players@[j]
    &&& input_applied(
        Scene { player: before.players@[k], attacks: before.attacks@, floor: before.floor() },
        Scene { player: after.players@[k], attacks: after.attacks@, floor: after.floor() },
        input,
        k as usize,
    )
}

/// Whether `trace` is the run of the states through which the inputs
/// lead from `before` to `after`, one player after the other.
pub open spec fn inputs_chain(
    before: GameState,
    after: GameState,
    inputs: Seq<PlayerInput>,
    trace: Seq<GameState>,
) -> bool {
    &&& trace.len() == crate::math::min(inputs.len() as int, before.players@.len() as int) + 1
    &&& trace[0] == before
    &&& trace[trace.len() - 1] == after
    &&& forall|k: int|
        0 <= k < trace.len() - 1 ==> input_step(trace[k], trace[k + 1], #[trigger] inputs[k], k)
}

/// Whether applying `inputs`, player by player, leads from `before` to
/// `after`.
pub open spec fn inputs_applied(before: GameState, after: GameState, inputs: Seq<PlayerInput>) -> bool {
    exists|trace: Seq<GameState>| inputs_chain(before, after, inputs, trace)
}

/// Whether stepping the attacks in flight leads from `before` to `after`:
/// each attack in turn has its frame, and those that are over are dropped.
pub open spec fn attacks_stepped(before: GameState, after: GameState) -> bool {
    exists|results: Seq<(AttackObj, bool)>, trace: Seq<World>|
        #![auto]
        attacks_ran(before.attacks@, results, trace, before.attacks@.len() as int) && trace[0] == (
        World { floor: before.floor(), players: before.players@, state: before.rng.state })
            && trace[before.attacks@.len() as int] == (World {
            floor: after.floor(),
            players: after.players@,
            state: after.rng.state,
        }) && after.attacks@ == survivors(results)
}

/// Whether the effects on the tiles lead from `before` to `after`: every
/// player and every monster takes the effects of the tile that it stands on,
/// and then the effects on every tile lose a frame.
pub open spec fn effects_stepped(before: GameState, after: GameState) -> bool {
    let floor = before.floor();
    &&& floor.same_but_monsters_and_floor(after.floor())
    &&& after.players@.len() == before.players@.len()
    &&& forall|i: int|
        0 <= i < before.players@.len() ==> #[trigger] after.players@[i] == player_affected(
            before.players@[i],
            effects_at(&floor.floor, tile_of(before.players@[i].polygon().center)),
            effects_at(&floor.floor, tile_of(before.players@[i].polygon().center)).len() as int,
        )
    &&& after.floor().monsters@.len() == floor.monsters@.len()
    &&& forall|i: int|
        0 <= i < floor.monsters@.len() ==> (#[trigger] after.floor().monsters@[i])@
            == monster_affected(
            floor.monsters@[i]@,
            effects_at(&floor.floor, tile_of(monster_polygon(floor.monsters@[i]@).center)),
            effects_at(
                &floor.floor,
                tile_of(monster_polygon(floor.monsters@[i]@).center),
            ).len() as int,
        )
    &&& after.floor().floor.objects@.len() == floor.floor.objects@.len()
    &&& forall|i: int|
        0 <= i < floor.floor.objects@.len() ==> #[trigger] after.floor().floor.objects@[i] == (
        Object { effects: after.floor().floor.objects@[i].effects, ..floor.floor.objects@[i] })
            && after.floor().floor.objects@[i].effects@ == tick_effects(
            floor.floor.objects@[i].effects@,
        )
}

/// Whether the frame of the monsters leads from `before` to `after`:
/// first every monster moves, then every monster attacks, and the dead are
/// removed.
pub open spec fn monsters_stepped(before: GameState, after: GameState) -> bool {
    let floor = before.floor();
    let moved = moved_all(
        monster_views(floor.monsters@),
        before.players@,
        &floor.floor,
        before.rng.state,
        floor.monsters@.len() as int,
    );
    &&& floor.same_but_monsters(after.floor())
    &&& after.rng.state == moved.1
    &&& (Aftermath {
        monsters: monster_views(after.floor().monsters@),
        players: after.players@,
        attacks: after.attacks@,
    }) == fought_all(
        moved.0,
        before.players@,
        before.attacks@,
        &floor.floor,
        floor.monsters@.len() as int,
    )
}

/// Whether looking at the exit leads from `before` to `after`: if a
/// player touches the exit of the floor and a floor lies below, the party is
/// on that floor and every player stands where it is entered; otherwise
/// nothing changes. The floors themselves stay as they are.
pub open spec fn exit_checked(before: GameState, after: GameState) -> bool {
    let leaving = exists|i: int|
        0 <= i < before.players@.len() && (#[trigger] before.players@[i]).polygon().collides(
            before.floor().exit.polygon(),
            0,
            0,
        );
    &&& after.frame == before.frame
    &&& after.attacks == before.attacks
    &&& after.rng == before.rng
    &&& after.map.rooms == before.map.rooms
    &&& after.players@.len() == before.players@.len()
    &&& if leaving && before.map.current_floor_index + 1 < before.map.rooms@.len() {
        &&& after.map.current_floor_index == before.map.current_floor_index + 1
        &&& forall|i: int|
            0 <= i < before.players@.len() ==> #[trigger] after.players@[i] == (Player {
                pos: before.map.rooms@[before.map.current_floor_index + 1].spawn,
                ..before.players@[i]
            })
    } else {
        after.map.current_floor_index == before.map.current_floor_index && after.players
            == before.players
    }
}

/// Whether the frame of the players leads from `before` to `after`: the
/// cooldowns and then the enchantments of every player lose a frame.
pub open spec fn players_stepped(before: GameState, after: GameState) -> bool {
    &&& after.map == before.map
    &&& after.frame == before.frame
    &&& after.attacks == before.attacks
    &&& after.rng == before.rng
    &&& after.players@.len() == before.players@.len()
    &&& forall|i: int|
        0 <= i < before.players@.len() ==> player_stepped(
            before.players@[i],
            #[trigger] after.players@[i],
        )
}

/// Whether the traps lead from `before` to `after`: every trap that has
/// not gone off is held against every player in turn.
pub open spec fn traps_stepped(before: GameState, after: GameState) -> bool {
    &&& before.same_frame(after)
    &&& after.attacks == before.attacks
    &&& after.players@.len() == before.players@.len()
    &&& before.floor().same_but_monsters_and_floor(after.floor())
    &&& after.floor().trap_world(after.players@, after.rng.state) == traps_checked(
        before.floor().trap_world(before.players@, before.rng.state),
        before.floor().rooms@,
        before.floor().monster_types@,
        live_traps(before.floor().floor.objects@, before.floor().floor.objects@.len() as int),
        live_traps(
            before.floor().floor.objects@,
            before.floor().floor.objects@.len() as int,
        ).len() as int,
    )
}

/// The states between the phases of one frame.
pub struct FrameTrace {
    pub counted: GameState,
    pub after_inputs: GameState,
    pub after_attacks: GameState,
    pub after_players: GameState,
    pub after_traps: GameState,
    pub after_effects: GameState,
    pub after_monsters: GameState,
}

/// Whether `trace` holds the states between the phases of a frame that
/// leads from `before` to `after` under `inputs`. The phases come in this
/// order: the frame is counted; the inputs of the players are applied; the
/// attacks are stepped; the cooldowns and enchantments of the players lose a
/// frame; traps go off; the effects on the tiles act and fade; the monsters
/// move and attack; and the exit is checked. The state is well formed
/// after every phase.
pub open spec fn frame_ran(
    before: GameState,
    after: GameState,
    inputs: Seq<PlayerInput>,
    trace: FrameTrace,
) -> bool {
    &&& trace.counted.frame == (if before.frame == u64::MAX {
        0
    } else {
        before.frame + 1
    })
    &&& trace.counted.players == before.players
    &&& trace.counted.attacks == before.attacks
    &&& trace.counted.map == before.map
    &&& trace.counted.rng == before.rng
    &&& trace.after_inputs.wf()
    &&& trace.after_attacks.wf()
    &&& trace.after_players.wf()
    &&& trace.after_traps.wf()
    &&& trace.after_effects.wf()
    &&& trace.after_monsters.wf()
    &&& trace.counted.same_frame(trace.after_inputs)
    &&& trace.after_inputs.rng == trace.counted.rng
    &&& inputs_applied(trace.counted, trace.after_inputs, inputs)
    &&& trace.after_inputs.same_frame(trace.after_attacks)
    &&& attacks_stepped(trace.after_inputs, trace.after_attacks)
    &&& players_stepped(trace.after_attacks, trace.after_players)
    &&& traps_stepped(trace.after_players, trace.after_traps)
    &&& trace.after_traps.same_frame(trace.after_effects)
    &&& trace.after_effects.attacks == trace.after_traps.attacks
    &&& trace.after_effects.rng == trace.after_traps.rng
    &&& effects_stepped(trace.after_traps, trace.after_effects)
    &&& trace.after_effects.same_frame(trace.after_monsters)
    &&& monsters_stepped(trace.after_effects, trace.after_monsters)
    &&& exit_checked(trace.after_monsters, after)
}

/// Whether one frame under `inputs` leads from `before` to `after`.
pub open spec fn advanced(before: GameState, after: GameState, inputs: Seq<PlayerInput>) -> bool {
    exists|trace: FrameTrace| frame_ran(before, after, inputs, trace)
}

/// Advances the game by one frame under the inputs of the players, the
/// input at place `i` being that of the player with index `i`.
pub fn advance(state: &mut GameState, inputs: &Vec<PlayerInput>)
    requires
        old(state).wf(),
    ensures
        final(state).wf(),
        advanced(*old(state), *final(state), inputs@),
        final(state).frame == (if old(state).frame == u64::MAX {
            0
        } else {
            old(state).frame + 1
        }),
        final(state).players@.len() == old(state).players@.len(),
{
    state.frame = state.frame.wrapping_add(1);
    let ghost counted = *state;
    state.apply_inputs(inputs);
    let ghost after_inputs = *state;
    state.step_attacks();
    let ghost after_attacks = *state;
    state.step_players();
    let ghost after_players = *state;
    state.step_traps();
    let ghost after_traps = *state;
    state.step_effects();
    let ghost after_effects = *state;
    state.step_monsters();
    let ghost after_monsters = *state;
    state.step_exit();
    proof {
        let trace = FrameTrace {
            counted,
            after_inputs,
            after_attacks,
            after_players,
            after_traps,
            after_effects,
            after_monsters,
        };
        assert(frame_ran(*old(state), *state, inputs@, trace));
    }
}

} // verus!
