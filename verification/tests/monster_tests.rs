use roguelite::attacks::AttackObj;
use roguelite::enchantments::{Enchantable, Enchantment, EnchantmentKind, EnchantmentSet};
use roguelite::map::{
    set_effects, tile_to_world, tile_to_world_center, trigger_traps, Effect, EffectType, Floor,
    FloorInfo, Object, Room, Trap, TrapType,
};
use roguelite::math::{Angle, AsPolygon, IVec2, Vec2};
use roguelite::monsters::slime::GreenSlime;
use roguelite::monsters::small_rat::{SmallRat, Target};
use roguelite::monsters::{award_xp, update_monsters, AttackMode, MonsterKind, MonsterObj};
use roguelite::player::{DamageInfo, Player, PlayerClass};
use roguelite::rng::Rng;

/// A floor on which every tile is floor but for the outermost ring.
fn field() -> Floor {
    let mut floor = Floor::solid();
    for x in 1..49 {
        for y in 1..49 {
            floor.set_object(Object::floor(IVec2::new(x, y)));
        }
    }
    floor
}

fn field_with(monsters: Vec<MonsterObj>) -> FloorInfo {
    FloorInfo {
        spawn: Vec2::new(0, 0),
        monster_types: vec![MonsterKind::SmallRat],
        item_types: Vec::new(),
        monsters,
        floor: field(),
        rooms: vec![Room {
            top_left: IVec2::new(0, 0),
            bottom_right: IVec2::new(49, 49),
            doors: Vec::new(),
        }],
        exit: Object::floor(IVec2::new(40, 40)),
    }
}

fn sleepy_rat(pos: Vec2, health: u16) -> SmallRat {
    SmallRat {
        health,
        pos,
        speed_mul: 1000,
        attack_mode: AttackMode::Passive,
        time_spent_moving: 0,
        time_til_move: 10000,
        current_path: None,
        enchantments: EnchantmentSet::new(),
        damaged_by: Vec::new(),
        current_target: None,
    }
}

/// A player whose center is the middle of the given tile.
fn walker_on(tile: IVec2) -> Player {
    let center = tile_to_world_center(tile);
    Player::new(PlayerClass::Warrior, Vec2::new(center.x - 6000, center.y - 6000))
}

#[test]
fn a_new_rat_waits_a_random_time() {
    let mut rng = Rng::new(1000);
    let rat = SmallRat::new(Vec2::new(5, 6), &mut rng);
    assert_eq!(rat.pos(), Vec2::new(5, 6));
    assert_eq!(rat.health, 22);
    assert_eq!(rat.attack_mode, AttackMode::Passive);
    // the first draw after seeding with 1000 is 145417784
    assert_eq!(rat.time_til_move, ((180u64 * 145417784) >> 32) as u16);
    assert!(rat.living());
    assert_eq!(rat.xp(), (&Vec::new(), 1));
    assert_eq!(rat.texture(), "small_mouse.webp");
    assert_eq!(rat.size(), Vec2::new(18000, 18000));
}

#[test]
fn a_hit_rat_is_hurt_thrown_back_and_remembers() {
    let floor = field();
    let mut rat = sleepy_rat(Vec2::new(300000, 300000), 22);
    rat.apply_enchantment(Enchantment { kind: EnchantmentKind::Sticky, strength: 1 });
    assert_eq!(rat.speed_mul, 500);
    rat.take_damage(DamageInfo { damage: 11, direction: Angle::zero(), player: 2 }, &floor);
    assert_eq!(rat.health, 11);
    assert_eq!(rat.damaged_by, vec![2]);
    // half of its health gone: thrown back by half of its size
    assert_eq!(rat.pos(), Vec2::new(309000, 300000));
    // the enchantments on it lose half of their time
    assert_eq!(rat.enchantments.sticky.unwrap().frames_left, 120);
    rat.take_damage(DamageInfo { damage: 100, direction: Angle::zero(), player: 2 }, &floor);
    assert_eq!(rat.health, 0);
    assert!(!rat.living());
    assert_eq!(rat.damaged_by, vec![2]);
    // thrown back by its size times the share of its full health: 18 * 100 / 22 pixels
    assert_eq!(rat.pos(), Vec2::new(309000 + 81818, 300000));
    rat.take_damage(DamageInfo { damage: 1, direction: Angle::zero(), player: 0 }, &floor);
    assert_eq!(rat.damaged_by, vec![2, 0]);
}

#[test]
fn rat_enchantments_wear_off() {
    let mut rat = sleepy_rat(Vec2::new(300000, 300000), 10);
    rat.attack_mode = AttackMode::Attacking;
    rat.current_target = Some(Target::PlayerIndex(0));
    rat.apply_enchantment(Enchantment { kind: EnchantmentKind::Blinded, strength: 0 });
    assert_eq!(rat.current_target, None);
    assert_eq!(rat.time_til_move, 50);
    rat.apply_enchantment(Enchantment { kind: EnchantmentKind::Regenerating, strength: 1 });
    for _ in 0..239 {
        rat.update_enchantments();
        assert!(rat.enchantments.blinded.is_some());
        assert_eq!(rat.attack_mode, AttackMode::Attacking);
    }
    // healed at 240, 210, ..., 30 frames left
    assert_eq!(rat.health, 18);
    rat.update_enchantments();
    assert_eq!(rat.enchantments, EnchantmentSet::new());
    assert_eq!(rat.attack_mode, AttackMode::Passive);
    assert_eq!(rat.time_til_move, 10);
}

#[test]
fn a_rat_bites_the_players_it_touches() {
    let floor = field();
    let mut rat = sleepy_rat(Vec2::new(300000, 300000), 22);
    let mut players = vec![
        Player::new(PlayerClass::Warrior, Vec2::new(310000, 295000)),
        Player::new(PlayerClass::Warrior, Vec2::new(600000, 600000)),
    ];
    rat.damage_players(&mut players, &floor);
    assert_eq!(players[0].hp(), 20);
    assert_eq!(players[0].invincibility_frames, 20);
    assert_eq!(players[1].hp(), 30);
    // no more damage while the player is invincible
    rat.damage_players(&mut players, &floor);
    assert_eq!(players[0].hp(), 20);
}

#[test]
fn a_rat_that_sees_a_player_hunts() {
    let floor = field();
    let mut rng = Rng::new(9);
    let mut rat = sleepy_rat(tile_to_world(IVec2::new(10, 10)), 22);
    rat.time_til_move = 1;
    let players = vec![walker_on(IVec2::new(40, 40)), walker_on(IVec2::new(14, 10))];
    rat.movement(&players, &floor, &mut rng);
    assert_eq!(rat.attack_mode, AttackMode::Attacking);
    assert_eq!(rat.current_target, Some(Target::PlayerIndex(1)));
    assert_eq!(rat.time_til_move, 25);
    assert_eq!(rat.size(), Vec2::new(19800, 19800));
}

#[test]
fn a_rat_does_not_hunt_the_dead_or_the_unseen() {
    let floor = field();
    let mut rng = Rng::new(9);
    let mut rat = sleepy_rat(tile_to_world(IVec2::new(10, 10)), 22);
    rat.time_til_move = 1;
    let mut dead = walker_on(IVec2::new(14, 10));
    dead.hp.points = 0;
    let players = vec![walker_on(IVec2::new(40, 40)), dead];
    rat.movement(&players, &floor, &mut rng);
    assert_eq!(rat.attack_mode, AttackMode::Passive);
    assert!(!matches!(rat.current_target, Some(Target::PlayerIndex(_))));
}

#[test]
fn a_waiting_rat_only_counts_down() {
    let floor = field();
    let mut rng = Rng::new(9);
    let before = rng;
    let mut rat = sleepy_rat(tile_to_world(IVec2::new(10, 10)), 22);
    rat.time_til_move = 5;
    let players = vec![walker_on(IVec2::new(11, 10))];
    rat.movement(&players, &floor, &mut rng);
    assert_eq!(rat.time_til_move, 4);
    assert_eq!(rat.attack_mode, AttackMode::Passive);
    assert_eq!(rat.pos(), tile_to_world(IVec2::new(10, 10)));
    assert_eq!(rng, before);
}

#[test]
fn a_hunting_rat_closes_in_and_lunges() {
    let floor = field();
    let mut rng = Rng::new(9);
    let mut rat = sleepy_rat(tile_to_world(IVec2::new(10, 10)), 22);
    rat.time_til_move = 1;
    rat.attack_mode = AttackMode::Attacking;
    rat.current_target = Some(Target::PlayerIndex(0));
    let players = vec![walker_on(IVec2::new(16, 10))];
    let target = players[0].as_polygon().center;
    let mut last = rat.as_polygon().center.distance(target);
    let mut lunged = false;
    for _ in 0..400 {
        rat.movement(&players, &floor, &mut rng);
        if rat.time_til_move == 45 {
            lunged = true;
            break;
        }
        let now = rat.as_polygon().center.distance(target);
        assert!(now <= last + 1100);
        last = now;
    }
    assert!(lunged);
    assert_eq!(rat.current_path, None);
    assert_eq!(rat.attack_mode, AttackMode::Attacking);
}

#[test]
fn a_hunting_rat_gives_up_a_dead_player() {
    let floor = field();
    let mut rng = Rng::new(9);
    let mut rat = sleepy_rat(tile_to_world(IVec2::new(10, 10)), 22);
    rat.time_til_move = 1;
    rat.attack_mode = AttackMode::Attacking;
    rat.current_target = Some(Target::PlayerIndex(0));
    let mut dead = walker_on(IVec2::new(30, 30));
    dead.hp.points = 0;
    rat.movement(&vec![dead], &floor, &mut rng);
    assert_eq!(rat.attack_mode, AttackMode::Passive);
    assert_eq!(rat.current_target, None);
}

#[test]
fn a_blinded_rat_stumbles_to_a_random_place() {
    let floor = field();
    let mut rng = Rng::new(9);
    let mut rat = sleepy_rat(Vec2::new(300000, 300000), 22);
    rat.apply_enchantment(Enchantment { kind: EnchantmentKind::Blinded, strength: 0 });
    rat.time_til_move = 0;
    let players = vec![walker_on(IVec2::new(13, 12))];
    rat.movement(&players, &floor, &mut rng);
    let target = match rat.current_target {
        Some(Target::Pos(p)) => p,
        other => panic!("no place to stumble to: {:?}", other),
    };
    assert!((target.x - 304500).abs() <= 50000 && (target.y - 304500).abs() <= 50000);
    assert_eq!(rat.pos(), Vec2::new(300000, 300000));
    assert_eq!(rat.attack_mode, AttackMode::Passive);
    let before = rat.pos().distance(target);
    rat.movement(&players, &floor, &mut rng);
    assert!(before < 18000 || rat.pos().distance(target) < before);
}

#[test]
fn a_new_slime() {
    let slime = GreenSlime::new(Vec2::new(3, 4));
    assert_eq!(slime.pos(), Vec2::new(3, 4));
    assert_eq!(slime.health, 15);
    assert_eq!(slime.time_til_attack, 30);
    assert_eq!(slime.xp(), (&Vec::new(), 2));
    assert!(slime.living());
    assert_eq!(slime.size(), Vec2::new(14000, 14000));
    assert_eq!(slime.texture(), "green_slime.webp");
}

#[test]
fn slimes_are_blinded_without_harm_and_cannot_be_slimed() {
    let mut slime = GreenSlime::new(Vec2::new(3, 4));
    slime.apply_enchantment(Enchantment { kind: EnchantmentKind::Sticky, strength: 2 });
    assert_eq!(slime.enchantments, EnchantmentSet::new());
    slime.apply_enchantment(Enchantment { kind: EnchantmentKind::Blinded, strength: 0 });
    assert_eq!(slime.health, 15);
    let blinded = slime.enchantments.blinded.unwrap();
    assert_eq!(blinded.frames_left, 300);
    assert_eq!(blinded.enchantment.strength, 0);
    assert!(slime.enchantments.sticky.is_none());
    slime.apply_enchantment(Enchantment { kind: EnchantmentKind::Regenerating, strength: 2 });
    assert_eq!(slime.enchantments.regenerating.unwrap().frames_left, 300);
    slime.update_enchantments();
    // 300 frames left: regeneration of strength two heals every 15 frames
    assert_eq!(slime.health, 15);
    slime.update_enchantments();
    assert_eq!(slime.health, 15);
}

#[test]
fn a_slime_throws_slimeballs_at_the_players_it_sees() {
    let floor = field();
    let mut slime = GreenSlime::new(tile_to_world(IVec2::new(10, 10)));
    slime.time_til_attack = 2;
    let players = vec![walker_on(IVec2::new(14, 10)), walker_on(IVec2::new(45, 45))];
    let mut attacks: Vec<AttackObj> = Vec::new();
    slime.attack(&players, &floor, &mut attacks);
    assert!(attacks.is_empty());
    assert_eq!(slime.time_til_attack, 1);
    slime.attack(&players, &floor, &mut attacks);
    assert_eq!(attacks.len(), 1);
    assert_eq!(slime.time_til_attack, 80);
    match attacks[0] {
        AttackObj::Slimeball(ball) => {
            assert_eq!(ball.pos, slime.as_polygon().center);
            assert_eq!((ball.angle.cos(), ball.angle.sin()), (998, 52));
            assert_eq!(ball.time, 0);
        }
        _ => unreachable!(),
    }
}

#[test]
fn a_slime_with_nobody_in_sight_stays_ready() {
    let floor = field();
    let mut slime = GreenSlime::new(tile_to_world(IVec2::new(10, 10)));
    slime.time_til_attack = 1;
    let players = vec![walker_on(IVec2::new(45, 45))];
    let mut attacks: Vec<AttackObj> = Vec::new();
    slime.attack(&players, &floor, &mut attacks);
    assert!(attacks.is_empty());
    assert_eq!(slime.time_til_attack, 0);
}

#[test]
fn a_passive_slime_turns_on_a_player_in_sight() {
    let floor = field();
    let mut rng = Rng::new(4);
    let mut slime = GreenSlime::new(tile_to_world(IVec2::new(10, 10)));
    let players = vec![walker_on(IVec2::new(14, 10))];
    slime.movement(&players, &floor, &mut rng);
    assert_eq!(slime.attack_mode, AttackMode::Attacking);
    assert_eq!(slime.pos(), tile_to_world(IVec2::new(10, 10)));
}

#[test]
fn a_hunted_slime_flees() {
    let floor = field();
    let mut rng = Rng::new(4);
    let mut slime = GreenSlime::new(tile_to_world(IVec2::new(10, 10)));
    slime.attack_mode = AttackMode::Attacking;
    let players = vec![walker_on(IVec2::new(12, 10))];
    let from = players[0].as_polygon().center;
    slime.movement(&players, &floor, &mut rng);
    let refuge = match slime.current_target {
        Some(Target::Pos(p)) => p,
        other => panic!("no refuge: {:?}", other),
    };
    assert!(Vec2::new(refuge.x + 12500, refuge.y + 12500).distance(from) >= 100000);
    assert!(slime.current_path.is_some());
}

#[test]
fn a_passive_slime_wanders() {
    let floor = field();
    let mut rng = Rng::new(4);
    let mut slime = GreenSlime::new(tile_to_world(IVec2::new(10, 10)));
    let players: Vec<Player> = Vec::new();
    let start = slime.pos();
    slime.movement(&players, &floor, &mut rng);
    assert!(slime.current_target.is_some());
    assert!(slime.current_path.is_some());
    for _ in 0..50 {
        slime.movement(&players, &floor, &mut rng);
    }
    assert_ne!(slime.pos(), start);
    assert_eq!(slime.attack_mode, AttackMode::Passive);
}

#[test]
fn experience_goes_to_those_who_hurt_the_monster() {
    let mut players = vec![
        walker_on(IVec2::new(40, 40)),
        walker_on(IVec2::new(42, 40)),
        walker_on(IVec2::new(44, 40)),
    ];
    let mut rat = sleepy_rat(tile_to_world(IVec2::new(5, 5)), 22);
    let floor = field();
    rat.take_damage(DamageInfo { damage: 2, direction: Angle::zero(), player: 0 }, &floor);
    rat.take_damage(DamageInfo { damage: 2, direction: Angle::zero(), player: 2 }, &floor);
    rat.take_damage(DamageInfo { damage: 30, direction: Angle::zero(), player: 0 }, &floor);
    assert!(!rat.living());
    let survivor = sleepy_rat(tile_to_world(IVec2::new(8, 8)), 22);
    let mut info = field_with(vec![MonsterObj::SmallRat(rat), MonsterObj::SmallRat(survivor)]);
    let mut attacks: Vec<AttackObj> = Vec::new();
    let mut rng = Rng::new(1);
    update_monsters(&mut players, &mut info, &mut attacks, &mut rng);
    assert_eq!(players[0].xp, 1);
    assert_eq!(players[1].xp, 0);
    assert_eq!(players[2].xp, 1);
    assert_eq!(info.monsters.len(), 1);
    assert_eq!(info.monsters[0].pos(), tile_to_world(IVec2::new(8, 8)));
    // the dead monster is gone: no more experience
    update_monsters(&mut players, &mut info, &mut attacks, &mut rng);
    assert_eq!((players[0].xp, players[1].xp, players[2].xp), (1, 0, 1));
}

#[test]
fn a_dead_slime_gives_two_points() {
    let mut players = vec![walker_on(IVec2::new(40, 40)), walker_on(IVec2::new(42, 40))];
    let mut slime = GreenSlime::new(tile_to_world(IVec2::new(5, 5)));
    let floor = field();
    slime.take_damage(DamageInfo { damage: 15, direction: Angle::zero(), player: 1 }, &floor);
    let mut info = field_with(vec![MonsterObj::GreenSlime(slime)]);
    let mut attacks: Vec<AttackObj> = Vec::new();
    let mut rng = Rng::new(1);
    update_monsters(&mut players, &mut info, &mut attacks, &mut rng);
    assert_eq!((players[0].xp, players[1].xp), (0, 2));
    assert!(info.monsters.is_empty());
}

#[test]
fn awards_pass_over_indices_without_a_player() {
    let mut players = vec![walker_on(IVec2::new(40, 40))];
    award_xp(&mut players, &vec![5, 0], 3);
    assert_eq!(players[0].xp, 3);
    assert_eq!(players.len(), 1);
}

#[test]
fn a_teleport_trap_moves_the_player_into_a_room_and_goes_off_once() {
    let mut info = field_with(Vec::new());
    let mut trapped = Object::floor(IVec2::new(10, 10));
    trapped.trap = Some(Trap { triggered: false, trap_type: TrapType::Teleport });
    info.floor.set_object(trapped);
    let mut players = vec![walker_on(IVec2::new(10, 10)), walker_on(IVec2::new(20, 20))];
    let other = players[1].pos();
    let mut rng = Rng::new(2);
    trigger_traps(&mut players, &mut info, &mut rng);
    let trap = info.floor.get_object_from_pos(IVec2::new(10, 10)).unwrap().trap.unwrap();
    assert!(trap.triggered);
    let tile = roguelite::map::world_to_tile(players[0].pos());
    assert_eq!(players[0].pos(), tile_to_world(tile));
    assert!(info.rooms()[0].inside_room(tile));
    assert_eq!(players[1].pos(), other);
    assert!(info.floor.untriggered_traps().is_empty());
    // a trap that has gone off does nothing
    players[1].pos = walker_on(IVec2::new(10, 10)).pos();
    let before = rng;
    trigger_traps(&mut players, &mut info, &mut rng);
    assert_eq!(players[1].pos(), walker_on(IVec2::new(10, 10)).pos());
    assert_eq!(rng, before);
}

#[test]
fn a_spawning_trap_lets_six_monsters_loose() {
    let mut info = field_with(Vec::new());
    let mut trapped = Object::floor(IVec2::new(10, 10));
    trapped.trap = Some(Trap { triggered: false, trap_type: TrapType::SpawnMonster });
    info.floor.set_object(trapped);
    let mut players = vec![walker_on(IVec2::new(10, 10))];
    let at = players[0].pos();
    let mut rng = Rng::new(2);
    trigger_traps(&mut players, &mut info, &mut rng);
    assert_eq!(info.monsters.len(), 6);
    for m in info.monsters.iter() {
        assert!(m.living());
        assert!(info.rooms()[0].inside_room(roguelite::map::world_to_tile(m.pos())));
    }
    assert_eq!(players[0].pos(), at);
    assert!(info.floor.untriggered_traps().is_empty());
}

#[test]
fn traps_away_from_the_players_stay_set() {
    let mut info = field_with(Vec::new());
    let mut trapped = Object::floor(IVec2::new(10, 10));
    trapped.trap = Some(Trap { triggered: false, trap_type: TrapType::SpawnMonster });
    info.floor.set_object(trapped);
    let mut players = vec![walker_on(IVec2::new(11, 10))];
    let mut rng = Rng::new(2);
    let before = rng;
    trigger_traps(&mut players, &mut info, &mut rng);
    assert!(info.monsters.is_empty());
    assert_eq!(info.floor.untriggered_traps(), vec![510]);
    assert_eq!(rng, before);
}

#[test]
fn effects_on_a_tile_act_on_those_who_stand_there() {
    let mut info = field_with(vec![
        MonsterObj::SmallRat(sleepy_rat(tile_to_world(IVec2::new(10, 10)), 22)),
        MonsterObj::SmallRat(sleepy_rat(tile_to_world(IVec2::new(30, 30)), 22)),
    ]);
    let mut slimy = Object::floor(IVec2::new(10, 10));
    slimy.effects.push(Effect { time_til_dissipate: Some(5), effect_type: EffectType::Slimed });
    info.floor.set_object(slimy);
    let mut players = vec![walker_on(IVec2::new(10, 10)), walker_on(IVec2::new(11, 10))];
    set_effects(&mut players, &mut info);
    let sticky = players[0].enchantments().sticky.unwrap();
    assert_eq!(sticky.enchantment, Enchantment { kind: EnchantmentKind::Sticky, strength: 1 });
    assert_eq!(players[1].enchantments().sticky, None);
    match (&info.monsters[0], &info.monsters[1]) {
        (MonsterObj::SmallRat(on), MonsterObj::SmallRat(off)) => {
            assert!(on.enchantments.sticky.is_some());
            assert_eq!(on.speed_mul, 500);
            assert!(off.enchantments.sticky.is_none());
        }
        _ => unreachable!(),
    }
}

#[test]
fn monsters_are_drawn_upright_and_mirrored() {
    let mut rng = Rng::new(2);
    let rat = MonsterObj::spawn(MonsterKind::SmallRat, Vec2::new(1000, 2000), &mut rng);
    let slime = MonsterObj::spawn(MonsterKind::GreenSlime, Vec2::new(1000, 2000), &mut rng);
    for m in [&rat, &slime] {
        assert_eq!(m.rotation().cos(), 1000);
        assert_eq!(m.rotation().sin(), 0);
        assert!(m.flip_x());
    }
    assert_eq!(rat.texture(), "small_mouse.webp");
    assert_eq!(slime.texture(), "green_slime.webp");
}

#[test]
fn a_hit_slime_is_hurt_thrown_back_and_remembers() {
    let floor = field();
    let mut slime = GreenSlime::new(Vec2::new(300000, 300000));
    slime.apply_enchantment(Enchantment { kind: EnchantmentKind::Regenerating, strength: 1 });
    slime.take_damage(DamageInfo { damage: 5, direction: Angle::zero(), player: 1 }, &floor);
    assert_eq!(slime.health, 10);
    assert_eq!(slime.damaged_by, vec![1]);
    // a third of its health gone: thrown back by a third of its size
    assert_eq!(slime.pos(), Vec2::new(300000 + 14000 * 5 / 15, 300000));
    // the enchantments on it lose half of their time
    assert_eq!(slime.enchantments.regenerating.unwrap().frames_left, 150);
    slime.take_damage(DamageInfo { damage: 5, direction: Angle::zero(), player: 1 }, &floor);
    assert_eq!(slime.damaged_by, vec![1]);
    // a wall in the way keeps it where it is
    let mut cornered = GreenSlime::new(Vec2::new(1205000, 255000));
    let at = cornered.pos();
    cornered.take_damage(DamageInfo { damage: 15, direction: Angle::zero(), player: 0 }, &floor);
    assert_eq!(cornered.pos(), at);
    assert_eq!(cornered.health, 0);
}

#[test]
fn a_stab_throws_a_rat_back_by_more_than_its_size() {
    let floor = field();
    let mut rat = sleepy_rat(Vec2::new(300000, 300000), 22);
    rat.take_damage(DamageInfo { damage: 25, direction: Angle::zero(), player: 0 }, &floor);
    // 18 pixels times 25 / 22
    assert_eq!(rat.pos(), Vec2::new(300000 + 18000 * 25 / 22, 300000));
    assert_eq!(roguelite::monsters::knockback(18000, 25, 22), 20454);
    assert_eq!(roguelite::monsters::knockback(14000, 0, 15), 0);
}

#[test]
fn a_hunting_rat_plans_through_doors_to_a_player_out_of_sight() {
    let mut floor = field();
    for y in 1..49 {
        floor.set_object(Object::wall(IVec2::new(20, y)));
    }
    let mut door = Object::wall(IVec2::new(20, 10));
    door.door = Some(roguelite::map::Door { pos: IVec2::new(20, 10), is_open: false });
    floor.set_object(door);
    let players = vec![walker_on(IVec2::new(23, 10))];
    let mut hunter = sleepy_rat(tile_to_world(IVec2::new(17, 10)), 22);
    hunter.time_til_move = 0;
    hunter.attack_mode = AttackMode::Attacking;
    hunter.current_target = Some(Target::PlayerIndex(0));
    let mut wanderer = hunter.clone();
    // hunting: the way leads through the door, though the player is not seen
    assert!(!hunter.step_pathfinding(&players, &floor, 1000, false));
    let (path, _) = hunter.current_path.clone().unwrap();
    assert!(path.contains(&tile_to_world_center(IVec2::new(20, 10))));
    assert_eq!(path.last(), Some(&tile_to_world_center(IVec2::new(23, 10))));
    // over the tiles in sight alone no way leads there
    assert!(wanderer.step_pathfinding(&players, &floor, 1000, true));
    assert!(wanderer.current_path.is_none());
}
