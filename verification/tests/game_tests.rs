use roguelite::attacks::AttackObj;
use roguelite::config::{ConfigInfo, PlayerConfigInfo};
use roguelite::init_game::{advance, init_players, GameState};
use roguelite::input::{movement_input, Controls, PlayerInput};
use roguelite::map::{tile_to_world_center, world_to_tile, DungeonMap, GenerationError};
use roguelite::math::{Angle, AsPolygon, Vec2};
use roguelite::net::{plan_frames, FramePlan, GGRSConfig};
use roguelite::player::{Player, PlayerClass};
use roguelite::rng::Rng;

fn idle(players: usize) -> Vec<PlayerInput> {
    (0..players).map(|_| PlayerInput::new()).collect()
}

fn still() -> Controls {
    Controls {
        up: false,
        down: false,
        left: false,
        right: false,
        primary: false,
        secondary: false,
        open_door: false,
        close_door: false,
        aim: Angle::zero(),
    }
}

#[test]
fn input_flags_are_independent() {
    let mut input = PlayerInput::new();
    assert!(!input.using_primary());
    assert!(!input.using_secondary());
    assert!(!input.is_moving());
    assert!(!input.opening_door());
    assert!(!input.closing_door());
    input.set_moving();
    assert!(input.is_moving());
    assert!(!input.using_primary());
    input.set_closing_door();
    input.set_primary_attacking();
    assert!(input.closing_door() && input.using_primary() && input.is_moving());
    assert!(!input.opening_door() && !input.using_secondary());
    input.set_opening_door();
    input.set_secondary_attacking();
    assert_eq!(input.flags, 0b11111);
    assert_eq!(PlayerInput::default(), PlayerInput::new());
    assert_eq!(PlayerInput::new().movement_angle(), Angle::zero());
    assert_eq!(PlayerInput::new().rotation(), Angle::zero());
}

#[test]
fn controls_become_input() {
    let p = Player::new(PlayerClass::Warrior, Vec2::new(0, 0));
    assert_eq!(movement_input(&p, Some(0), &still()), PlayerInput {
        movement_angle: Angle::zero(),
        rotation: Angle::zero(),
        flags: 0,
    });
    let mut c = still();
    c.up = true;
    c.right = true;
    c.primary = true;
    c.aim = Angle::from_vector(0, 1);
    let input = movement_input(&p, Some(0), &c);
    assert!(input.is_moving() && input.using_primary());
    assert!(!input.using_secondary() && !input.opening_door() && !input.closing_door());
    assert_eq!((input.movement_angle().cos(), input.movement_angle().sin()), (707, -707));
    assert_eq!(input.rotation(), Angle::from_vector(0, 1));
    // keys that pull against each other cancel out
    let mut both = still();
    both.left = true;
    both.right = true;
    both.close_door = true;
    let cancelled = movement_input(&p, Some(0), &both);
    assert!(!cancelled.is_moving());
    assert!(cancelled.closing_door());
    // the dead give no input
    let mut dead = Player::new(PlayerClass::Warrior, Vec2::new(0, 0));
    dead.hp.points = 0;
    assert_eq!(movement_input(&dead, Some(0), &c), PlayerInput::new());
}

#[test]
fn a_new_game() {
    let state = GameState::new(PlayerClass::Wizard, 2, 1000).unwrap();
    assert_eq!(state.frame, 0);
    assert_eq!(state.players.len(), 2);
    assert!(state.attacks.is_empty());
    assert_eq!(state.map.rooms.len(), 5);
    let spawn = state.map.current_floor().current_spawn();
    for p in state.players.iter() {
        assert_eq!(p.pos(), spawn);
        assert_eq!(p.hp(), 20);
    }
    let fresh: Result<DungeonMap, GenerationError> = DungeonMap::new(&mut Rng::new(1000));
    assert_eq!(
        format!("{:?}", fresh.unwrap().rooms[0].floor),
        format!("{:?}", state.map.rooms[0].floor)
    );
}

#[test]
fn players_are_made_where_the_floor_is_entered() {
    let state = GameState::new(PlayerClass::Rogue, 0, 5).unwrap();
    assert!(state.players.is_empty());
    let players = init_players(PlayerClass::Warrior, &state.map, 3);
    assert_eq!(players.len(), 3);
    for p in players.iter() {
        assert_eq!(p.pos(), state.map.current_floor().current_spawn());
        assert_eq!(p.hp(), 30);
    }
}

#[test]
fn a_frame_counts_up_and_keeps_the_players() {
    let mut state = GameState::new(PlayerClass::Warrior, 2, 1000).unwrap();
    advance(&mut state, &idle(2));
    assert_eq!(state.frame, 1);
    assert_eq!(state.players.len(), 2);
    advance(&mut state, &Vec::new());
    assert_eq!(state.frame, 2);
    state.frame = u64::MAX;
    advance(&mut state, &idle(5));
    assert_eq!(state.frame, 0);
}

#[test]
fn the_same_state_and_inputs_give_the_same_frame() {
    let mut first = GameState::new(PlayerClass::Wizard, 2, 4242).unwrap();
    let mut inputs = idle(2);
    inputs[0].movement_angle = Angle::from_vector(1, 1);
    inputs[0].set_moving();
    inputs[0].set_primary_attacking();
    inputs[1].rotation = Angle::from_vector(-1, 0);
    inputs[1].set_secondary_attacking();
    inputs[1].set_opening_door();
    for _ in 0..20 {
        advance(&mut first, &inputs);
    }
    // a copy taken in the middle and the game it was taken from go the same way
    let mut second = first.clone();
    assert_eq!(format!("{:?}", first), format!("{:?}", second));
    for frame in 0..40 {
        advance(&mut first, &inputs);
        advance(&mut second, &inputs);
        assert_eq!(format!("{:?}", first), format!("{:?}", second), "frame {}", frame);
    }
    // and so does a game started again from the same seed
    let mut again = GameState::new(PlayerClass::Wizard, 2, 4242).unwrap();
    for _ in 0..60 {
        advance(&mut again, &inputs);
    }
    assert_eq!(format!("{:?}", first), format!("{:?}", again));
}

#[test]
fn input_moves_and_turns_the_player() {
    let mut state = GameState::new(PlayerClass::Warrior, 1, 1000).unwrap();
    let start = state.players[0].pos();
    let mut input = PlayerInput::new();
    input.rotation = Angle::from_vector(0, 1);
    advance(&mut state, &vec![input]);
    assert_eq!(state.players[0].angle, Angle::from_vector(0, 1));
    assert_eq!(state.players[0].pos(), start);
    input.set_moving();
    input.movement_angle = Angle::zero();
    advance(&mut state, &vec![input]);
    // the middle of a room is free: the player moves by its speed
    assert_eq!(state.players[0].pos(), Vec2::new(start.x + 2200, start.y));
}

#[test]
fn attacks_start_fly_and_end() {
    let mut state = GameState::new(PlayerClass::Wizard, 1, 1000).unwrap();
    let mut input = PlayerInput::new();
    input.set_secondary_attacking();
    advance(&mut state, &vec![input]);
    // the stab was started and had its first frame
    assert_eq!(state.attacks.len(), 1);
    assert!(matches!(state.attacks[0], AttackObj::Stab(s) if s.time == 1 && s.player_index == 0));
    // the cooldown was set and has counted down once
    assert_eq!(state.players[0].secondary_cooldown, 49);
    for _ in 0..5 {
        advance(&mut state, &vec![input]);
    }
    assert!(state.attacks.is_empty());
    assert_eq!(state.players[0].secondary_cooldown, 44);
}

#[test]
fn touching_the_exit_leads_down() {
    let mut state = GameState::new(PlayerClass::Warrior, 2, 1000).unwrap();
    let exit = state.map.current_floor().exit().as_polygon().center;
    // half on the exit tile, so that edges cross
    state.players[1].pos = Vec2::new(exit.x - 6000, exit.y - 18000);
    let below = state.map.rooms[1].current_spawn();
    advance(&mut state, &idle(2));
    assert_eq!(state.map.current_floor_index, 1);
    assert_eq!(state.players[0].pos(), below);
    assert_eq!(state.players[1].pos(), below);
    assert_eq!(world_to_tile(tile_to_world_center(world_to_tile(below))), world_to_tile(below));
}

#[test]
fn frames_are_paced_against_the_clock() {
    // nothing has come together yet
    assert_eq!(
        plan_frames(0, None, 0, 0, false),
        FramePlan { steps: 0, accumulator: 0, frames_to_skip: 0 }
    );
    // just short of one frame time: no frame is run
    assert_eq!(
        plan_frames(0, None, 0, 16666665, false),
        FramePlan { steps: 0, accumulator: 16666665, frames_to_skip: 0 }
    );
    // exactly one frame time: one frame is run and nothing is left over
    assert_eq!(
        plan_frames(0, None, 0, 16666666, false),
        FramePlan { steps: 1, accumulator: 0, frames_to_skip: 0 }
    );
    assert_eq!(
        plan_frames(0, None, 1, 16666666, false),
        FramePlan { steps: 1, accumulator: 1, frames_to_skip: 0 }
    );
    assert_eq!(
        plan_frames(0, None, 10, 50000000, false),
        FramePlan { steps: 3, accumulator: 12, frames_to_skip: 0 }
    );
    // ahead of the other side: frames take a tenth longer
    assert_eq!(
        plan_frames(0, None, 10, 50000000, true),
        FramePlan { steps: 2, accumulator: 13333344, frames_to_skip: 0 }
    );
    // passes to skip are counted off and nothing is put by
    assert_eq!(
        plan_frames(3, None, 10, 50000000, false),
        FramePlan { steps: 0, accumulator: 10, frames_to_skip: 2 }
    );
    assert_eq!(
        plan_frames(0, Some(7), 10, 50000000, false),
        FramePlan { steps: 0, accumulator: 10, frames_to_skip: 6 }
    );
    let plan = plan_frames(0, None, u64::MAX, u64::MAX, false);
    assert_eq!(plan.steps, u64::MAX / 16666666);
    assert!(plan.accumulator < 16666666);
}

#[test]
fn settings_have_defaults_and_setters() {
    assert_eq!(
        GGRSConfig::default(),
        GGRSConfig { multiplayer: false, local_port: 1111, remote_port: 2222 }
    );
    assert_eq!(PlayerConfigInfo::default(), PlayerConfigInfo { class: PlayerClass::Warrior });
    let mut config = ConfigInfo::default();
    assert_eq!(config.class(), PlayerClass::Warrior);
    assert_eq!((config.local_port(), config.remote_port()), (1111, 2222));
    assert!(!config.multiplayer());
    config.set_class(PlayerClass::Rogue);
    config.set_local_port(7);
    config.set_remote_port(8);
    config.set_opposite_multiplayer();
    assert_eq!(config.class(), PlayerClass::Rogue);
    assert_eq!((config.local_port(), config.remote_port()), (7, 8));
    assert!(config.multiplayer());
    config.set_opposite_multiplayer();
    assert!(!config.multiplayer());
}

#[test]
fn settings_make_the_players() {
    let mut state = GameState::new(PlayerClass::Warrior, 1, 1000).unwrap();
    let mut config = ConfigInfo::default();
    config.set_class(PlayerClass::Wizard);
    config.set_opposite_multiplayer();
    config.set_config(&mut state);
    assert_eq!(state.players.len(), 2);
    for p in state.players.iter() {
        assert_eq!(p.hp(), 20);
        assert_eq!(p.pos(), state.map.current_floor().current_spawn());
    }
    config.set_opposite_multiplayer();
    config.set_config(&mut state);
    assert_eq!(state.players.len(), 1);
}

#[test]
fn a_snapshot_goes_the_way_of_the_game() {
    let mut game = GameState::new(PlayerClass::Rogue, 2, 99).unwrap();
    let mut inputs = idle(2);
    inputs[0].movement_angle = Angle::from_vector(0, 1);
    inputs[0].set_moving();
    inputs[0].set_primary_attacking();
    inputs[1].set_closing_door();
    for _ in 0..15 {
        advance(&mut game, &inputs);
    }
    let saved = game.snapshot();
    assert_eq!(format!("{:?}", saved), format!("{:?}", game));
    let mut replayed = saved.snapshot();
    for _ in 0..30 {
        advance(&mut game, &inputs);
    }
    // the snapshot has stayed where it was taken
    assert_eq!(saved.frame, 15);
    assert_ne!(format!("{:?}", saved), format!("{:?}", game));
    for _ in 0..30 {
        advance(&mut replayed, &inputs);
    }
    assert_eq!(format!("{:?}", replayed), format!("{:?}", game));
    // going back and playing the frames again ends in the same state
    let ahead = format!("{:?}", game);
    game.restore(&saved);
    assert_eq!(format!("{:?}", game), format!("{:?}", saved));
    for _ in 0..30 {
        advance(&mut game, &inputs);
    }
    assert_eq!(format!("{:?}", game), ahead);
}
