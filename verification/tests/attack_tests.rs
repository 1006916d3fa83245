use roguelite::attacks::{
    bounce_damage, hit_monsters, update_attacks, Attack, AttackObj, BlindingLight, MagicMissile,
    Slash, Slimeball, Stab, ThrownKnife, BASE_DAMAGE, KNIFE_DAMAGE, PIERCE_CAP, SLASH_DAMAGE,
    STAB_DAMAGE,
};
use roguelite::monsters::slime::GreenSlime;
use roguelite::enchantments::{EnchantmentKind, EnchantmentSet};
use roguelite::items::ItemType;
use roguelite::map::{tile_to_world_center, world_to_tile, Floor, FloorInfo, Object};
use roguelite::math::{Angle, AsPolygon, IVec2, Vec2};
use roguelite::monsters::small_rat::SmallRat;
use roguelite::monsters::{AttackMode, MonsterObj};
use roguelite::player::{Player, PlayerClass};
use roguelite::rng::Rng;

/// A floor on which every tile is floor but for the outermost ring.
fn arena() -> Floor {
    let mut floor = Floor::solid();
    for x in 1..49 {
        for y in 1..49 {
            floor.set_object(Object::floor(IVec2::new(x, y)));
        }
    }
    floor
}

fn arena_with(monsters: Vec<MonsterObj>) -> FloorInfo {
    FloorInfo {
        spawn: Vec2::new(0, 0),
        monster_types: Vec::new(),
        item_types: Vec::new(),
        monsters,
        floor: arena(),
        rooms: Vec::new(),
        exit: Object::floor(IVec2::new(40, 40)),
    }
}

/// A rat with the given health that does not move for a long time.
fn rat_at(pos: Vec2, health: u16) -> MonsterObj {
    MonsterObj::SmallRat(SmallRat {
        health,
        pos,
        speed_mul: 1000,
        attack_mode: AttackMode::Passive,
        time_spent_moving: 0,
        time_til_move: 10000,
        current_path: None,
        enchantments: EnchantmentSet::new(),
        damaged_by: Vec::new(),
        current_target: None,
    })
}

fn rat_health(m: &MonsterObj) -> u16 {
    match m {
        MonsterObj::SmallRat(rat) => rat.health,
        MonsterObj::GreenSlime(slime) => slime.health,
    }
}

/// A player whose center is at the given position.
fn caster_at(class: PlayerClass, center: Vec2) -> Player {
    Player::new(class, Vec2::new(center.x - 6000, center.y - 6000))
}

#[test]
fn a_stab_hits_the_monster_in_its_path_once() {
    let caster = caster_at(PlayerClass::Wizard, Vec2::new(100000, 100000));
    let mut info = arena_with(vec![rat_at(Vec2::new(115000, 95000), 100)]);
    let mut players = vec![caster];
    let mut rng = Rng::new(1);
    let mut stab = Stab::new(&players[0], Some(0), Angle::zero(), &info.floor, true);
    assert_eq!(stab.pos, Vec2::new(100000, 100000));
    let done = stab.update(&mut info, &mut players, &mut rng);
    assert!(done);
    assert_eq!(stab.pos, Vec2::new(106000, 100000));
    assert_eq!(rat_health(&info.monsters[0]), 100 - STAB_DAMAGE);
    assert_eq!(STAB_DAMAGE, 25);
    match &info.monsters[0] {
        MonsterObj::SmallRat(rat) => assert_eq!(rat.damaged_by, vec![0]),
        _ => unreachable!(),
    }
}

#[test]
fn a_stab_is_over_after_six_frames() {
    let mut info = arena_with(Vec::new());
    let mut players = vec![caster_at(PlayerClass::Wizard, Vec2::new(100000, 100000))];
    let mut rng = Rng::new(1);
    let mut stab = Stab::new(&players[0], Some(0), Angle::zero(), &info.floor, false);
    for frame in 1..=6 {
        let done = stab.update(&mut info, &mut players, &mut rng);
        assert_eq!(done, frame == 6, "frame {}", frame);
        assert_eq!(stab.pos, Vec2::new(100000 + 6000 * frame, 100000));
    }
    assert_eq!(stab.cooldown(), 50);
    assert_eq!(stab.mana_cost(), 0);
}

#[test]
fn a_stab_past_its_time_hits_nothing() {
    let mut info = arena_with(vec![rat_at(Vec2::new(115000, 95000), 100)]);
    let mut players = vec![caster_at(PlayerClass::Wizard, Vec2::new(100000, 100000))];
    let mut rng = Rng::new(1);
    let mut stab = Stab::new(&players[0], Some(0), Angle::zero(), &info.floor, true);
    stab.time = 5;
    assert!(stab.update(&mut info, &mut players, &mut rng));
    assert_eq!(rat_health(&info.monsters[0]), 100);
}

#[test]
fn a_stab_pulls_its_maker_along() {
    let floor = arena();
    let mut p = caster_at(PlayerClass::Wizard, Vec2::new(100000, 100000));
    let start = p.pos();
    let stab = Stab::new(&p, Some(0), Angle::from_vector(0, 1), &floor, true);
    stab.side_effects(&mut p, &floor);
    assert_eq!(p.pos(), Vec2::new(start.x, start.y + 12000));
}

#[test]
fn a_slash_swings_around_its_maker_and_hits_all_it_touches() {
    let center = Vec2::new(300000, 300000);
    let mut players = vec![caster_at(PlayerClass::Warrior, center)];
    let mut rng = Rng::new(1);
    let floor = arena();
    let mut slash = Slash::new(&players[0], Some(0), Angle::zero(), &floor, true);
    assert_eq!(slash.pos, center);
    // the blade starts a third of a half turn ahead of the aim
    assert_eq!((slash.angle.cos(), slash.angle.sin()), (509, 860));
    let mut probe = slash;
    let mut empty = arena_with(Vec::new());
    assert!(!probe.update(&mut empty, &mut players, &mut rng));
    // two rats on the blade after its first frame, one far away
    let blade = probe.pos;
    let mut info = arena_with(vec![
        rat_at(Vec2::new(blade.x + 5000, blade.y - 5000), 100),
        rat_at(Vec2::new(blade.x - 10000, blade.y + 10000), 100),
        rat_at(Vec2::new(600000, 600000), 100),
    ]);
    assert!(!slash.update(&mut info, &mut players, &mut rng));
    assert_eq!(slash.pos, blade);
    assert_eq!(rat_health(&info.monsters[0]), 100 - SLASH_DAMAGE);
    assert_eq!(rat_health(&info.monsters[1]), 100 - SLASH_DAMAGE);
    assert_eq!(rat_health(&info.monsters[2]), 100);
    assert_eq!(slash.num_piercings, 2);
    assert_eq!(SLASH_DAMAGE, 4);
    for frame in 2..=10 {
        let done = slash.update(&mut info, &mut players, &mut rng);
        assert_eq!(done, frame == 10, "frame {}", frame);
    }
    assert_eq!(slash.cooldown(), 30);
}

#[test]
fn a_slash_without_its_maker_is_over() {
    let mut players = vec![caster_at(PlayerClass::Warrior, Vec2::new(300000, 300000))];
    let floor = arena();
    let mut slash = Slash::new(&players[0], Some(3), Angle::zero(), &floor, true);
    let mut info = arena_with(Vec::new());
    let mut rng = Rng::new(1);
    assert!(slash.update(&mut info, &mut players, &mut rng));
}

#[test]
fn missile_damage_is_the_base_to_the_power_of_the_bounces() {
    for bounces in 0..3u16 {
        assert_eq!(bounce_damage(bounces), BASE_DAMAGE.pow(1 + bounces as u32));
    }
    assert_eq!(bounce_damage(0), 1);
    assert_eq!(bounce_damage(u16::MAX), 1);
}

#[test]
fn a_missile_flies_straight_in_the_open() {
    let mut info = arena_with(Vec::new());
    let mut players = vec![caster_at(PlayerClass::Wizard, Vec2::new(300000, 300000))];
    let mut rng = Rng::new(1);
    let mut missile = MagicMissile::new(&players[0], Some(0), Angle::zero(), &info.floor, true);
    for frame in 1..=59 {
        assert!(!missile.update(&mut info, &mut players, &mut rng));
        assert_eq!(missile.pos, Vec2::new(300000 + 5000 * frame, 300000));
        assert_eq!(missile.bounces, 0);
    }
    assert!(missile.update(&mut info, &mut players, &mut rng));
    assert_eq!(missile.cooldown(), 45);
    assert_eq!(missile.mana_cost(), 1);
}

#[test]
fn a_missile_bounces_off_walls() {
    let mut info = arena_with(Vec::new());
    // close to the wall ring on the right, which begins at x = 1225000
    let mut players = vec![caster_at(PlayerClass::Wizard, Vec2::new(1204000, 305000))];
    let mut rng = Rng::new(1);
    let mut missile = MagicMissile::new(&players[0], Some(0), Angle::zero(), &info.floor, true);
    // 1204000 + 15000 + 5000 stays short of the wall, the second step does not
    assert!(!missile.update(&mut info, &mut players, &mut rng));
    assert_eq!(missile.pos, Vec2::new(1209000, 305000));
    assert_eq!(missile.bounces, 0);
    assert!(!missile.update(&mut info, &mut players, &mut rng));
    assert_eq!(missile.bounces, 1);
    assert_eq!((missile.angle.cos(), missile.angle.sin()), (-1000, 0));
    assert_eq!(missile.pos, Vec2::new(1204000, 305000));
}

#[test]
fn a_missile_that_has_bounced_is_thrown_back_by_a_monster() {
    let mut info = arena_with(vec![rat_at(Vec2::new(310000, 295000), 100)]);
    let mut players = vec![caster_at(PlayerClass::Wizard, Vec2::new(300000, 300000))];
    let mut rng = Rng::new(1);
    let mut missile = MagicMissile::new(&players[0], Some(0), Angle::zero(), &info.floor, true);
    missile.bounces = 1;
    assert!(!missile.update(&mut info, &mut players, &mut rng));
    assert_eq!(rat_health(&info.monsters[0]), 99);
    assert_eq!(missile.bounces, 2);
    assert_eq!((missile.angle.cos(), missile.angle.sin()), (-1000, 0));
    assert_eq!(missile.pos, Vec2::new(295000, 300000));
    assert_eq!(missile.time, 1);
}

#[test]
fn a_missile_that_has_not_bounced_stays_on_the_monster() {
    let mut info = arena_with(vec![rat_at(Vec2::new(310000, 295000), 100)]);
    let mut players = vec![caster_at(PlayerClass::Wizard, Vec2::new(300000, 300000))];
    let mut rng = Rng::new(1);
    let mut missile = MagicMissile::new(&players[0], Some(0), Angle::zero(), &info.floor, true);
    assert!(!missile.update(&mut info, &mut players, &mut rng));
    assert_eq!(rat_health(&info.monsters[0]), 99);
    assert_eq!(missile.bounces, 0);
    assert_eq!(missile.pos, Vec2::new(300000, 300000));
    assert_eq!(missile.time, 2);
}

#[test]
fn a_blinding_light_blinds_and_does_no_damage() {
    let mut players = vec![caster_at(PlayerClass::Wizard, Vec2::new(300000, 300000))];
    let floor = arena();
    let mut light = BlindingLight::new(&players[0], None, Angle::zero(), &floor, true);
    assert_eq!(light.pos, Vec2::new(312000, 300000));
    // the light covers 90 pixels from its position; one rat on its edge, one away
    let mut info = arena_with(vec![
        rat_at(Vec2::new(395000, 350000), 22),
        rat_at(Vec2::new(800000, 800000), 22),
    ]);
    let mut rng = Rng::new(1);
    assert!(!light.update(&mut info, &mut players, &mut rng));
    match (&info.monsters[0], &info.monsters[1]) {
        (MonsterObj::SmallRat(near), MonsterObj::SmallRat(far)) => {
            let blinded = near.enchantments.get(EnchantmentKind::Blinded).unwrap();
            assert_eq!(blinded.frames_left, 240);
            assert_eq!(blinded.enchantment.strength, 0);
            assert_eq!(near.health, 22);
            assert_eq!(near.time_til_move, 50);
            assert!(far.enchantments.get(EnchantmentKind::Blinded).is_none());
        }
        _ => unreachable!(),
    }
    for frame in 2..=60 {
        let done = light.update(&mut info, &mut players, &mut rng);
        assert_eq!(done, frame == 60);
    }
    assert_eq!(light.mana_cost(), 3);
    assert_eq!(light.cooldown(), 60);
}

#[test]
fn a_slimeball_hurts_and_slimes_the_player_it_hits() {
    let mut info = arena_with(Vec::new());
    let mut players = vec![
        caster_at(PlayerClass::Warrior, Vec2::new(600000, 600000)),
        Player::new(PlayerClass::Warrior, Vec2::new(310000, 295000)),
    ];
    let thrower = rat_at(Vec2::new(291000, 291000), 22);
    let mut ball = Slimeball::new(&thrower, None, Angle::zero(), &info.floor, true);
    assert_eq!(ball.pos, Vec2::new(300000, 300000));
    let mut rng = Rng::new(1);
    let mut frames = 0;
    loop {
        frames += 1;
        if ball.update(&mut info, &mut players, &mut rng) {
            break;
        }
    }
    // the ball is 15 pixels long and the player begins 10 pixels from it
    assert_eq!(frames, 1);
    assert_eq!(players[1].hp(), 24);
    assert_eq!(players[1].invincibility_frames, 12);
    let sticky = players[1].enchantments().sticky.unwrap();
    assert_eq!(sticky.enchantment.strength, 2);
    assert_eq!(sticky.frames_left, 60);
    assert_eq!(players[0].hp(), 30);
    assert_eq!(ball.cooldown(), 80);
}

#[test]
fn a_slimeball_is_over_after_thirty_frames_or_at_a_wall() {
    let mut info = arena_with(Vec::new());
    let mut players: Vec<Player> = Vec::new();
    let mut rng = Rng::new(1);
    let thrower = rat_at(Vec2::new(291000, 291000), 22);
    let mut ball = Slimeball::new(&thrower, None, Angle::zero(), &info.floor, true);
    for frame in 1..=30 {
        let done = ball.update(&mut info, &mut players, &mut rng);
        assert_eq!(done, frame == 30);
        assert_eq!(ball.pos, Vec2::new(300000 + 2200 * frame, 300000));
    }
    let near_wall = rat_at(Vec2::new(1200000, 291000), 22);
    let mut stopped = Slimeball::new(&near_wall, None, Angle::zero(), &info.floor, true);
    assert_eq!(stopped.pos, Vec2::new(1209000, 300000));
    // 1209000 + 15000 + 2200 is past the wall at 1225000
    assert!(stopped.update(&mut info, &mut players, &mut rng));
    assert_eq!(stopped.pos, Vec2::new(1209000, 300000));
}

#[test]
fn a_thrown_knife_hits_and_is_left_on_the_floor() {
    let mut info = arena_with(vec![rat_at(Vec2::new(315000, 290000), 100)]);
    let mut players = vec![caster_at(PlayerClass::Rogue, Vec2::new(300000, 300000))];
    let mut rng = Rng::new(1);
    let before = rng;
    let mut knife = ThrownKnife::new(&players[0], Some(0), Angle::zero(), &info.floor, true);
    assert_eq!(knife.pos, Vec2::new(295000, 290000));
    let mut frames = 0;
    loop {
        frames += 1;
        assert!(frames < 10);
        if knife.update(&mut info, &mut players, &mut rng) {
            break;
        }
        // nothing is drawn while the knife flies
        assert_eq!(rng, before);
    }
    assert_eq!(rat_health(&info.monsters[0]), 100 - KNIFE_DAMAGE);
    assert_ne!(rng, before);
    let tile = world_to_tile(knife.as_polygon().center);
    let items = info.floor.get_object_from_pos(tile).unwrap().items();
    assert_eq!(items.len(), 1);
    assert_eq!(items[0].item_type, ItemType::ThrowingKnife);
    assert_eq!(items[0].tile_pos(), Some(tile));
    assert_eq!(items[0].stack_count, Some(1));
}

#[test]
fn a_thrown_knife_that_hits_a_wall_drops_beside_it() {
    let mut info = arena_with(Vec::new());
    // aimed at the wall ring on the right from two tiles away
    let start = tile_to_world_center(IVec2::new(47, 20));
    let mut players = vec![caster_at(PlayerClass::Rogue, start)];
    let mut rng = Rng::new(1);
    let mut knife = ThrownKnife::new(&players[0], Some(0), Angle::zero(), &info.floor, true);
    let mut frames = 0;
    loop {
        frames += 1;
        assert!(frames < 20);
        if knife.update(&mut info, &mut players, &mut rng) {
            break;
        }
    }
    let mut found = Vec::new();
    for o in info.floor.objects().iter() {
        for item in o.items().iter() {
            found.push((o.tile_pos(), item.item_type));
        }
    }
    assert_eq!(found.len(), 1);
    assert_eq!(found[0].1, ItemType::ThrowingKnife);
    assert!(!info.floor.get_object_from_pos(found[0].0).unwrap().is_collidable());
    let center = world_to_tile(knife.as_polygon().center);
    assert!((found[0].0.x - center.x).abs() <= 1 && (found[0].0.y - center.y).abs() <= 1);
}

#[test]
fn attacks_that_are_over_are_dropped() {
    let mut info = arena_with(Vec::new());
    let mut players = vec![caster_at(PlayerClass::Wizard, Vec2::new(300000, 300000))];
    let mut rng = Rng::new(1);
    let mut old_stab = Stab::new(&players[0], Some(0), Angle::zero(), &info.floor, true);
    old_stab.time = 5;
    let young_stab = Stab::new(&players[0], Some(0), Angle::zero(), &info.floor, true);
    let missile = MagicMissile::new(&players[0], Some(0), Angle::zero(), &info.floor, true);
    let mut attacks = vec![
        AttackObj::Stab(old_stab),
        AttackObj::MagicMissile(missile),
        AttackObj::Stab(young_stab),
    ];
    update_attacks(&mut players, &mut info, &mut attacks, &mut rng);
    assert_eq!(attacks.len(), 2);
    assert!(matches!(attacks[0], AttackObj::MagicMissile(m) if m.time == 1));
    assert!(matches!(attacks[1], AttackObj::Stab(s) if s.time == 1));
}

#[test]
fn attack_objects_tell_what_they_cost_and_look_like() {
    let p = caster_at(PlayerClass::Wizard, Vec2::new(300000, 300000));
    let floor = arena();
    let stab = AttackObj::Stab(Stab::new(&p, Some(0), Angle::zero(), &floor, true));
    let light = AttackObj::BlindingLight(BlindingLight::new(&p, None, Angle::zero(), &floor, true));
    let slash = AttackObj::Slash(Slash::new(&p, Some(0), Angle::zero(), &floor, true));
    assert_eq!((stab.mana_cost(), stab.cooldown()), (0, 50));
    assert_eq!((light.mana_cost(), light.cooldown()), (3, 60));
    assert_eq!((slash.mana_cost(), slash.cooldown()), (0, 30));
    assert_eq!(stab.texture(), "stab.webp");
    assert_eq!(light.size(), Vec2::new(90000, 90000));
    assert_eq!(stab.pos(), Vec2::new(300000, 300000));
    assert!(stab.flip_x());
    assert!(!slash.flip_x());
    assert_eq!(stab.rotation(), Angle::zero());
}

#[test]
fn only_spells_have_a_shape_to_show() {
    let pos = Vec2::new(100000, 100000);
    let angle = Angle::from_vector(1, 0);
    let stab = Stab { pos, angle, time: 0, player_index: 0, num_piercings: 0 };
    let slash = Slash { pos, angle, time: 0, player_index: 0, num_piercings: 0 };
    let missile = MagicMissile { pos, angle, time: 0, bounces: 0, player_index: 0 };
    let light = BlindingLight { pos, angle, time: 0 };
    assert!(stab.as_polygon_optional().is_none());
    assert!(slash.as_polygon_optional().is_none());
    assert_eq!(
        missile.as_polygon_optional().map(|p| p.center),
        Some(missile.as_polygon().center)
    );
    assert_eq!(light.as_polygon_optional().map(|p| p.center), Some(light.as_polygon().center));
}

#[test]
fn a_stab_ends_at_a_wall() {
    // the arena's wall begins at the tile in column 49, at 1225 pixels
    let mut players = vec![caster_at(PlayerClass::Warrior, Vec2::new(1200000, 300000))];
    let floor = arena();
    let mut stab = Stab::new(&players[0], Some(0), Angle::zero(), &floor, true);
    stab.pos = Vec2::new(1205000, 300000);
    // a rat whose square holds the whole stab is not touched by its edges
    let mut info = arena_with(vec![rat_at(Vec2::new(1210000, 295000), 22)]);
    let mut rng = Rng::new(1);
    assert!(stab.update(&mut info, &mut players, &mut rng));
    assert_eq!(stab.time, 1);
    assert_eq!(rat_health(&info.monsters[0]), 22);
    // in the open the same stab goes on
    let mut free = Stab::new(&players[0], Some(0), Angle::zero(), &floor, true);
    free.pos = Vec2::new(600000, 300000);
    let mut open = arena_with(Vec::new());
    assert!(!free.update(&mut open, &mut players, &mut rng));
}

#[test]
fn a_stab_at_a_wall_still_hits_the_monster_it_touches() {
    let mut players = vec![caster_at(PlayerClass::Warrior, Vec2::new(1200000, 300000))];
    let floor = arena();
    let mut stab = Stab::new(&players[0], Some(0), Angle::zero(), &floor, true);
    stab.pos = Vec2::new(1205000, 300000);
    // the lower edge of the stab crosses the left side of the rat
    let mut info = arena_with(vec![
        rat_at(Vec2::new(1215000, 302000), 40),
        rat_at(Vec2::new(1216000, 303000), 40),
    ]);
    let mut rng = Rng::new(1);
    assert!(stab.update(&mut info, &mut players, &mut rng));
    assert_eq!(rat_health(&info.monsters[0]), 40 - STAB_DAMAGE);
    assert_eq!(rat_health(&info.monsters[1]), 40);
    match &info.monsters[0] {
        MonsterObj::SmallRat(rat) => assert_eq!(rat.damaged_by, vec![0]),
        _ => unreachable!(),
    }
}

#[test]
fn a_blinding_light_blinds_a_slime_without_harm() {
    let mut players = vec![caster_at(PlayerClass::Wizard, Vec2::new(300000, 300000))];
    let floor = arena();
    let mut light = BlindingLight::new(&players[0], None, Angle::zero(), &floor, true);
    let mut info = arena_with(vec![MonsterObj::GreenSlime(GreenSlime::new(Vec2::new(
        395000, 350000,
    )))]);
    let mut rng = Rng::new(1);
    for _ in 0..5 {
        assert!(!light.update(&mut info, &mut players, &mut rng));
    }
    match &info.monsters[0] {
        MonsterObj::GreenSlime(slime) => {
            assert_eq!(slime.health, 15);
            let blinded = slime.enchantments.get(EnchantmentKind::Blinded).unwrap();
            assert_eq!(blinded.enchantment.strength, 0);
            assert_eq!(blinded.frames_left, 300);
        }
        _ => unreachable!(),
    }
}

#[test]
fn hits_stop_at_the_limit() {
    let pos = Vec2::new(300000, 300000);
    let blade = Slash { pos, angle: Angle::zero(), time: 1, player_index: 0, num_piercings: 0 };
    let poly = blade.as_polygon();
    let rats = |n: usize| (0..n).map(|_| rat_at(Vec2::new(305000, 295000), 100)).collect();
    let mut info = arena_with(rats(5));
    assert_eq!(hit_monsters(&mut info, &poly, 4, pos, 0, 3), 3);
    let health: Vec<u16> = info.monsters.iter().map(rat_health).collect();
    assert_eq!(health, vec![96, 96, 96, 100, 100]);
    let mut all = arena_with(rats(5));
    assert_eq!(hit_monsters(&mut all, &poly, 4, pos, 0, 9), 5);
    let mut none = arena_with(rats(5));
    assert_eq!(hit_monsters(&mut none, &poly, 4, pos, 0, 0), 0);
    assert!(none.monsters.iter().all(|m| rat_health(m) == 100));
}

#[test]
fn a_slash_pierces_up_to_its_cap() {
    let center = Vec2::new(300000, 300000);
    let mut players = vec![caster_at(PlayerClass::Warrior, center)];
    let mut rng = Rng::new(1);
    let floor = arena();
    let mut probe = Slash::new(&players[0], Some(0), Angle::zero(), &floor, true);
    let mut empty = arena_with(Vec::new());
    assert!(!probe.update(&mut empty, &mut players, &mut rng));
    let blade = probe.pos;
    // ten rats on the blade: the slash hits the first eight and no more
    let mut info = arena_with(
        (0..10).map(|_| rat_at(Vec2::new(blade.x + 5000, blade.y - 5000), 100)).collect(),
    );
    let mut slash = Slash::new(&players[0], Some(0), Angle::zero(), &floor, true);
    assert!(!slash.update(&mut info, &mut players, &mut rng));
    assert_eq!(PIERCE_CAP, 8);
    assert_eq!(slash.num_piercings, 8);
    let hurt = info.monsters.iter().filter(|m| rat_health(m) == 100 - SLASH_DAMAGE).count();
    assert_eq!(hurt, 8);
    assert_eq!(rat_health(&info.monsters[8]), 100);
    assert_eq!(rat_health(&info.monsters[9]), 100);
    // with no hit left it hurts nobody for the rest of its life
    let before: Vec<u16> = info.monsters.iter().map(rat_health).collect();
    for _ in 2..10 {
        slash.update(&mut info, &mut players, &mut rng);
    }
    let after: Vec<u16> = info.monsters.iter().map(rat_health).collect();
    assert_eq!(before, after);
    assert_eq!(slash.num_piercings, 8);
}

#[test]
fn a_slash_ends_at_a_wall() {
    // the maker stands beside the arena's wall, so that its blade swings into it
    let mut players = vec![caster_at(PlayerClass::Warrior, Vec2::new(1212000, 300000))];
    let floor = arena();
    let mut slash = Slash::new(&players[0], Some(0), Angle::zero(), &floor, true);
    let mut info = arena_with(vec![rat_at(Vec2::new(1215000, 310000), 22)]);
    let mut rng = Rng::new(1);
    assert!(slash.update(&mut info, &mut players, &mut rng));
    // the rat that the blade touches on that frame is hit all the same
    assert_eq!(slash.num_piercings, 1);
    assert_eq!(rat_health(&info.monsters[0]), 22 - SLASH_DAMAGE);
    let mut alone = Slash::new(&players[0], Some(0), Angle::zero(), &floor, true);
    let mut empty = arena_with(Vec::new());
    assert!(alone.update(&mut empty, &mut players, &mut rng));
    assert_eq!(alone.num_piercings, 0);
}
