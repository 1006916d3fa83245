use roguelite::attacks::AttackObj;
use roguelite::enchantments::{Enchantable, Enchantment, EnchantmentKind};
use roguelite::items::{use_item, ItemInfo, ItemType, PotionType};
use roguelite::map::{tile_to_world_center, Door, Floor, FloorInfo, Object};
use roguelite::math::{Angle, AsPolygon, IVec2, Vec2};
use roguelite::player::{
    damage_player, interact_with_door, item_pos_from_index, move_player, pickup_items,
    player_attack, toggle_inventory, update_cooldowns, DoorInteraction, ItemSelectedInfo, Player,
    PlayerClass, PlayerClassError, PointInfo, SelectionType, Spell,
};

/// A floor on which every tile is floor but for the outermost ring.
fn open_floor() -> Floor {
    let mut floor = Floor::solid();
    for x in 1..49 {
        for y in 1..49 {
            floor.set_object(Object::floor(IVec2::new(x, y)));
        }
    }
    floor
}

fn floor_info_of(floor: Floor) -> FloorInfo {
    FloorInfo {
        spawn: Vec2::new(0, 0),
        monster_types: Vec::new(),
        item_types: Vec::new(),
        monsters: Vec::new(),
        floor,
        rooms: Vec::new(),
        exit: Object::floor(IVec2::new(40, 40)),
    }
}

/// A player whose center is the middle of the given tile.
fn hero_on(class: PlayerClass, tile: IVec2) -> Player {
    let center = tile_to_world_center(tile);
    Player::new(class, Vec2::new(center.x - 6000, center.y - 6000))
}

#[test]
fn a_new_warrior() {
    let p = Player::new(PlayerClass::Warrior, Vec2::new(7, 9));
    assert_eq!(p.pos(), Vec2::new(7, 9));
    assert_eq!(p.hp(), 30);
    assert_eq!(p.mp(), 3);
    assert_eq!(p.hp, PointInfo { points: 30, regen_rate: 900, max_points: 30, time_til_regen: 0 });
    assert_eq!(p.mp, PointInfo { points: 3, regen_rate: 600, max_points: 3, time_til_regen: 0 });
    assert_eq!(p.willpower, 10);
    assert!(p.spells().is_empty());
    assert_eq!(p.inventory().primary_item, Some(ItemInfo::new(ItemType::ShortSword, None)));
    assert_eq!(p.inventory().secondary_item, None);
    assert_eq!((p.xp, p.level, p.gold), (0, 0, 0));
    assert_eq!(p.speed, 2200);
    assert_eq!(p.angle, Angle::zero());
}

#[test]
fn a_new_wizard() {
    let p = Player::new(PlayerClass::Wizard, Vec2::new(0, 0));
    assert_eq!(p.hp(), 20);
    assert_eq!(p.mp, PointInfo { points: 6, regen_rate: 420, max_points: 6, time_til_regen: 0 });
    assert_eq!(p.willpower, 20);
    assert_eq!(p.spells(), &vec![Spell::MagicMissile, Spell::BlindingLight]);
    assert_eq!(p.inventory().primary_item, Some(ItemInfo::new(ItemType::WizardGlove, None)));
    assert_eq!(p.inventory().secondary_item, Some(ItemInfo::new(ItemType::WizardsDagger, None)));
}

#[test]
fn a_new_rogue() {
    let p = Player::new(PlayerClass::Rogue, Vec2::new(0, 0));
    assert_eq!(p.hp(), 20);
    assert_eq!(p.mp, PointInfo { points: 4, regen_rate: 540, max_points: 4, time_til_regen: 0 });
    assert_eq!(p.willpower, 15);
    let knives = p.inventory().primary_item.unwrap();
    assert_eq!(knives.item_type, ItemType::ThrowingKnife);
    assert_eq!(knives.stack_count, Some(5));
}

#[test]
fn class_names() {
    assert_eq!(PlayerClass::Warrior.name(), "Warrior");
    assert_eq!(PlayerClass::Wizard.name(), "Wizard");
    assert_eq!(PlayerClass::Rogue.name(), "Rogue");
    assert_eq!(Spell::BlindingLight.name(), "Blinding Light");
    assert_eq!(Spell::MagicMissile.name(), "Magic Missile");
}

#[test]
fn classes_are_found_by_name_in_any_case() {
    assert_eq!(PlayerClass::try_from("warrior"), Ok(PlayerClass::Warrior));
    assert_eq!(PlayerClass::try_from("WaRRioR"), Ok(PlayerClass::Warrior));
    assert_eq!(PlayerClass::try_from("WIZARD"), Ok(PlayerClass::Wizard));
    assert_eq!(PlayerClass::try_from("rogue"), Err(PlayerClassError));
    assert_eq!(PlayerClass::try_from(""), Err(PlayerClassError));
}

#[test]
fn experience_raises_the_level() {
    let mut p = Player::new(PlayerClass::Warrior, Vec2::new(0, 0));
    p.add_xp(13);
    assert_eq!((p.xp, p.level), (13, 0));
    p.add_xp(1);
    assert_eq!((p.xp, p.level), (0, 1));
    assert_eq!((p.mp.max_points, p.mp.points), (5, 5));
    assert_eq!((p.hp.max_points, p.hp.points), (31, 31));
    p.add_xp(15);
    assert_eq!((p.xp, p.level), (15, 1));
    p.add_xp(1);
    assert_eq!((p.xp, p.level), (0, 2));
    assert_eq!((p.mp.max_points, p.hp.max_points), (7, 32));
    // past the highest level the points only add up
    p.add_xp(1000);
    assert_eq!((p.xp, p.level), (1000, 2));
    p.add_xp(u32::MAX);
    assert_eq!((p.xp, p.level), (u32::MAX, 2));
}

#[test]
fn spells_cycle_first_and_last() {
    let mut p = Player::new(PlayerClass::Wizard, Vec2::new(0, 0));
    p.cycle_spells();
    assert_eq!(p.spells(), &vec![Spell::BlindingLight, Spell::MagicMissile]);
    let mut w = Player::new(PlayerClass::Warrior, Vec2::new(0, 0));
    w.cycle_spells();
    assert!(w.spells().is_empty());
}

#[test]
fn selection_of_items() {
    let mut p = Player::new(PlayerClass::Wizard, Vec2::new(0, 0));
    assert_eq!(p.get_item_selection_type(), None);
    p.set_selected_item(Some(ItemSelectedInfo { index: 2, selection_type: SelectionType::Hovered }));
    assert_eq!(p.get_item_selection_type(), Some(SelectionType::Hovered));
    p.set_selected_item(None);
    assert_eq!(p.get_item_selection_type(), None);
    assert!(!p.in_inventory);
    toggle_inventory(&mut p);
    assert!(p.in_inventory);
    assert_eq!(item_pos_from_index(0), Vec2::new(150000, 200000));
    assert_eq!(item_pos_from_index(13), Vec2::new(300000, 250000));
}

#[test]
fn players_move_unless_a_wall_is_in_the_way() {
    let floor = open_floor();
    let mut p = hero_on(PlayerClass::Warrior, IVec2::new(10, 10));
    let start = p.pos();
    move_player(&mut p, Angle::zero(), None, &floor);
    assert_eq!(p.pos(), Vec2::new(start.x + 2200, start.y));
    move_player(&mut p, Angle::from_vector(0, 1), None, &floor);
    assert_eq!(p.pos(), Vec2::new(start.x + 2200, start.y + 2200));
    move_player(&mut p, Angle::from_vector(3, 4), Some(Vec2::new(1000, 2000)), &floor);
    assert_eq!(p.pos(), Vec2::new(start.x + 2200 + 600, start.y + 2200 + 1600));
}

#[test]
fn players_slide_along_walls() {
    let floor = open_floor();
    // just left of the wall ring on the right: tile 48 is the last floor tile
    let mut p = hero_on(PlayerClass::Warrior, IVec2::new(48, 10));
    let start = p.pos();
    let speed = Some(Vec2::new(12000, 12000));
    move_player(&mut p, Angle::from_vector(1, 1), speed, &floor);
    // the step along x runs into the wall, the step along y does not
    assert_eq!(p.pos(), Vec2::new(start.x, start.y + 8484));
}

#[test]
fn sticky_players_are_slow() {
    let floor = open_floor();
    let mut p = hero_on(PlayerClass::Warrior, IVec2::new(10, 10));
    p.apply_enchantment(Enchantment { kind: EnchantmentKind::Sticky, strength: 2 });
    let start = p.pos();
    move_player(&mut p, Angle::zero(), None, &floor);
    assert_eq!(p.pos(), Vec2::new(start.x + 1100, start.y));
}

#[test]
fn damage_hurts_and_makes_invincible() {
    let floor = open_floor();
    let mut p = hero_on(PlayerClass::Warrior, IVec2::new(10, 10));
    let start = p.pos();
    damage_player(&mut p, 10, Angle::zero(), &floor);
    assert_eq!(p.hp(), 20);
    assert_eq!(p.invincibility_frames, 20);
    assert_eq!(p.pos(), Vec2::new(start.x + 12000, start.y));
    // no damage while invincible
    damage_player(&mut p, 10, Angle::zero(), &floor);
    assert_eq!(p.hp(), 20);
    assert_eq!(p.pos(), Vec2::new(start.x + 12000, start.y));
    p.invincibility_frames = 0;
    damage_player(&mut p, 100, Angle::zero(), &floor);
    assert_eq!(p.hp(), 0);
    assert_eq!(p.invincibility_frames, 200);
}

#[test]
fn cooldowns_count_down() {
    let mut players = vec![
        Player::new(PlayerClass::Warrior, Vec2::new(0, 0)),
        Player::new(PlayerClass::Wizard, Vec2::new(0, 0)),
    ];
    players[0].primary_cooldown = 2;
    players[0].secondary_cooldown = 0;
    players[0].invincibility_frames = 5;
    players[1].hp.points = 0;
    players[1].primary_cooldown = 9;
    update_cooldowns(&mut players);
    assert_eq!(players[0].primary_cooldown, 1);
    assert_eq!(players[0].secondary_cooldown, 0);
    assert_eq!(players[0].invincibility_frames, 4);
    // a player without hit points is left alone
    assert_eq!(players[1].primary_cooldown, 9);
}

#[test]
fn points_regenerate_at_their_rate() {
    let mut players = vec![Player::new(PlayerClass::Warrior, Vec2::new(0, 0))];
    players[0].hp.points = 28;
    players[0].hp.regen_rate = 3;
    // the countdown is at zero, so the first frame heals
    update_cooldowns(&mut players);
    assert_eq!(players[0].hp.points, 29);
    assert_eq!(players[0].hp.time_til_regen, 3);
    update_cooldowns(&mut players);
    update_cooldowns(&mut players);
    assert_eq!(players[0].hp.points, 29);
    update_cooldowns(&mut players);
    assert_eq!(players[0].hp.points, 30);
    for _ in 0..10 {
        update_cooldowns(&mut players);
    }
    assert_eq!(players[0].hp.points, 30);
}

#[test]
fn a_change_of_spell_happens_when_its_countdown_is_over() {
    let mut players = vec![Player::new(PlayerClass::Wizard, Vec2::new(0, 0))];
    players[0].changing_spell = true;
    players[0].time_til_change_spell = 2;
    update_cooldowns(&mut players);
    assert_eq!(players[0].spells(), &vec![Spell::MagicMissile, Spell::BlindingLight]);
    assert!(players[0].changing_spell);
    update_cooldowns(&mut players);
    assert_eq!(players[0].spells(), &vec![Spell::BlindingLight, Spell::MagicMissile]);
    assert!(!players[0].changing_spell);
}

#[test]
fn regeneration_heals_one_point_every_thirty_frames() {
    let mut p = Player::new(PlayerClass::Warrior, Vec2::new(0, 0));
    p.hp.points = 1;
    p.apply_enchantment(Enchantment { kind: EnchantmentKind::Regenerating, strength: 1 });
    assert_eq!(p.enchantments().regenerating.unwrap().frames_left, 480);
    let mut gains = Vec::new();
    for frame in 0..480 {
        let before = p.hp();
        p.update_enchantments();
        assert!(p.hp() == before || p.hp() == before + 1);
        if p.hp() > before {
            gains.push(frame);
        }
    }
    assert_eq!(gains, (0..16).map(|k| k * 30).collect::<Vec<i32>>());
    assert_eq!(p.hp(), 17);
    // the enchantment is over: nothing is gained any more
    assert_eq!(p.enchantments().regenerating, None);
    for _ in 0..100 {
        p.update_enchantments();
    }
    assert_eq!(p.hp(), 17);
}

#[test]
fn stronger_regeneration_heals_more_often() {
    let mut p = Player::new(PlayerClass::Warrior, Vec2::new(0, 0));
    p.hp.points = 1;
    p.hp.max_points = 100;
    p.apply_enchantment(Enchantment { kind: EnchantmentKind::Regenerating, strength: 3 });
    let mut gained = 0;
    let mut last_gain = -10;
    for frame in 0..480 {
        let before = p.hp();
        p.update_enchantments();
        if p.hp() > before {
            assert!(last_gain < 0 || frame - last_gain == 10);
            last_gain = frame;
            gained += 1;
        }
    }
    assert_eq!(gained, 48);
    assert_eq!(p.hp(), 49);
}

#[test]
fn regeneration_never_exceeds_the_maximum() {
    let mut p = Player::new(PlayerClass::Warrior, Vec2::new(0, 0));
    p.hp.points = 28;
    p.apply_enchantment(Enchantment { kind: EnchantmentKind::Regenerating, strength: 1 });
    for _ in 0..480 {
        p.update_enchantments();
        assert!(p.hp() <= 30);
    }
    assert_eq!(p.hp(), 30);
}

#[test]
fn an_enchantment_at_work_is_not_renewed() {
    let mut p = Player::new(PlayerClass::Warrior, Vec2::new(0, 0));
    p.apply_enchantment(Enchantment { kind: EnchantmentKind::Sticky, strength: 2 });
    p.update_enchantments();
    p.apply_enchantment(Enchantment { kind: EnchantmentKind::Sticky, strength: 5 });
    let sticky = p.enchantments().sticky.unwrap();
    assert_eq!(sticky.frames_left, 59);
    assert_eq!(sticky.enchantment.strength, 2);
    for _ in 0..59 {
        p.update_enchantments();
    }
    assert_eq!(p.enchantments().sticky, None);
}

#[test]
fn potions_start_regeneration() {
    let mut floor = open_floor();
    let mut p = Player::new(PlayerClass::Warrior, Vec2::new(0, 0));
    let potion = ItemInfo::new(ItemType::Potion(PotionType::Regeneration), None);
    assert!(use_item(&potion, &mut p, &mut floor));
    let effect = p.enchantments().regenerating.unwrap();
    assert_eq!(effect.frames_left, 480);
    assert_eq!(effect.enchantment.strength, 1);
    let sword = ItemInfo::new(ItemType::ShortSword, None);
    let mut q = Player::new(PlayerClass::Warrior, Vec2::new(0, 0));
    assert!(!use_item(&sword, &mut q, &mut floor));
    assert_eq!(q.enchantments().regenerating, None);
}

#[test]
fn a_warrior_slashes_and_then_has_to_wait() {
    let info = floor_info_of(open_floor());
    let mut p = hero_on(PlayerClass::Warrior, IVec2::new(10, 10));
    let mut attacks: Vec<AttackObj> = Vec::new();
    player_attack(&mut p, Some(0), &mut attacks, &info, true);
    assert_eq!(attacks.len(), 1);
    assert!(matches!(attacks[0], AttackObj::Slash(_)));
    assert_eq!(p.primary_cooldown, 30);
    assert_eq!(p.mp(), 3);
    // the cooldown is not over: nothing happens
    player_attack(&mut p, Some(0), &mut attacks, &info, true);
    assert_eq!(attacks.len(), 1);
    // the warrior has nothing in the secondary slot
    player_attack(&mut p, Some(0), &mut attacks, &info, false);
    assert_eq!(attacks.len(), 1);
    assert_eq!(p.secondary_cooldown, 0);
}

#[test]
fn a_wizard_pays_mana_for_spells() {
    let info = floor_info_of(open_floor());
    let mut p = hero_on(PlayerClass::Wizard, IVec2::new(10, 10));
    let start = p.pos();
    let mut attacks: Vec<AttackObj> = Vec::new();
    player_attack(&mut p, Some(1), &mut attacks, &info, true);
    assert!(matches!(attacks[0], AttackObj::MagicMissile(m) if m.player_index == 1));
    assert_eq!(p.mp(), 5);
    assert_eq!(p.primary_cooldown, 45);
    // the missile kicks its maker back
    assert_eq!(p.pos(), Vec2::new(start.x - 1500, start.y));
    // the dagger in the other slot is free
    player_attack(&mut p, Some(1), &mut attacks, &info, false);
    assert!(matches!(attacks[1], AttackObj::Stab(_)));
    assert_eq!(p.mp(), 5);
    assert_eq!(p.secondary_cooldown, 50);
    // without mana no spell
    p.primary_cooldown = 0;
    p.mp.points = 0;
    player_attack(&mut p, Some(1), &mut attacks, &info, true);
    assert_eq!(attacks.len(), 2);
    assert_eq!(p.primary_cooldown, 0);
    // the other spell costs three
    p.cycle_spells();
    p.mp.points = 3;
    player_attack(&mut p, Some(1), &mut attacks, &info, true);
    assert!(matches!(attacks[2], AttackObj::BlindingLight(_)));
    assert_eq!(p.mp(), 0);
    assert_eq!(p.primary_cooldown, 60);
}

#[test]
fn a_rogue_runs_out_of_knives() {
    let info = floor_info_of(open_floor());
    let mut p = hero_on(PlayerClass::Rogue, IVec2::new(10, 10));
    let mut attacks: Vec<AttackObj> = Vec::new();
    for thrown in 1..=5u8 {
        p.primary_cooldown = 0;
        player_attack(&mut p, Some(0), &mut attacks, &info, true);
        assert_eq!(attacks.len(), thrown as usize);
        assert!(matches!(attacks[attacks.len() - 1], AttackObj::ThrowingKnife(_)));
        assert_eq!(p.inventory().primary_item.unwrap().stack_count, Some(5 - thrown));
        assert_eq!(p.primary_cooldown, 10);
    }
    p.primary_cooldown = 0;
    player_attack(&mut p, Some(0), &mut attacks, &info, true);
    assert_eq!(attacks.len(), 5);
    assert_eq!(p.primary_cooldown, 0);
}

#[test]
fn doors_next_to_the_player_are_opened_and_closed() {
    let mut floor = open_floor();
    let mut door = Object::wall(IVec2::new(11, 10));
    door.door = Some(Door { pos: IVec2::new(11, 10), is_open: false });
    floor.set_object(door);
    let mut far = Object::wall(IVec2::new(20, 10));
    far.door = Some(Door { pos: IVec2::new(20, 10), is_open: false });
    floor.set_object(far);
    let mut info = floor_info_of(floor);
    let p = hero_on(PlayerClass::Warrior, IVec2::new(10, 10));
    let is_open = |info: &FloorInfo, x: i32| {
        info.floor.get_object_from_pos(IVec2::new(x, 10)).unwrap().door().unwrap().is_open
    };
    interact_with_door(&p, DoorInteraction::Closing, &mut info);
    assert!(!is_open(&info, 11));
    interact_with_door(&p, DoorInteraction::Opening, &mut info);
    assert!(is_open(&info, 11));
    assert!(!is_open(&info, 20));
    interact_with_door(&p, DoorInteraction::Toggle, &mut info);
    assert!(!is_open(&info, 11));
    interact_with_door(&p, DoorInteraction::Toggle, &mut info);
    assert!(is_open(&info, 11));
    interact_with_door(&p, DoorInteraction::Closing, &mut info);
    assert!(!is_open(&info, 11));
}

#[test]
fn a_door_is_not_worked_from_inside_the_doorway() {
    let mut floor = open_floor();
    let mut door = Object::wall(IVec2::new(10, 10));
    door.door = Some(Door { pos: IVec2::new(10, 10), is_open: true });
    floor.set_object(door);
    let mut info = floor_info_of(floor);
    let p = hero_on(PlayerClass::Warrior, IVec2::new(10, 10));
    interact_with_door(&p, DoorInteraction::Closing, &mut info);
    assert!(info.floor.get_object_from_pos(IVec2::new(10, 10)).unwrap().door().unwrap().is_open);
}

#[test]
fn of_two_doors_the_one_that_changes_is_taken() {
    let mut floor = open_floor();
    let mut open_door = Object::wall(IVec2::new(9, 10));
    open_door.door = Some(Door { pos: IVec2::new(9, 10), is_open: true });
    floor.set_object(open_door);
    let mut closed_door = Object::wall(IVec2::new(11, 10));
    closed_door.door = Some(Door { pos: IVec2::new(11, 10), is_open: false });
    floor.set_object(closed_door);
    let mut info = floor_info_of(floor);
    let p = hero_on(PlayerClass::Warrior, IVec2::new(10, 10));
    interact_with_door(&p, DoorInteraction::Opening, &mut info);
    assert!(info.floor.get_object_from_pos(IVec2::new(9, 10)).unwrap().door().unwrap().is_open);
    assert!(info.floor.get_object_from_pos(IVec2::new(11, 10)).unwrap().door().unwrap().is_open);
    interact_with_door(&p, DoorInteraction::Closing, &mut info);
    // both are open and the player touches neither: the later one is taken
    assert!(info.floor.get_object_from_pos(IVec2::new(9, 10)).unwrap().door().unwrap().is_open);
    assert!(!info.floor.get_object_from_pos(IVec2::new(11, 10)).unwrap().door().unwrap().is_open);
}

#[test]
fn items_under_the_player_are_picked_up() {
    let mut floor = open_floor();
    floor.add_item_to_object(ItemInfo::new(ItemType::Gold(20), Some(IVec2::new(10, 10))));
    floor.add_item_to_object(ItemInfo::new(ItemType::ShortSword, Some(IVec2::new(10, 10))));
    floor.add_item_to_object(ItemInfo::new(ItemType::Gold(5), Some(IVec2::new(30, 30))));
    let mut p = Player::new(PlayerClass::Warrior, Vec2::new(255000, 255000));
    assert!(floor.get_object_from_pos(IVec2::new(10, 10)).unwrap().items()[0]
        .as_polygon()
        .center
        .x > 0);
    pickup_items(&mut p, &mut floor);
    assert_eq!(p.gold, 20);
    assert_eq!(floor.get_object_from_pos(IVec2::new(10, 10)).unwrap().items().len(), 1);
    pickup_items(&mut p, &mut floor);
    assert_eq!(p.gold, 20);
    assert_eq!(p.inventory().items, vec![ItemInfo::new(ItemType::ShortSword, Some(IVec2::new(10, 10)))]);
    assert!(floor.get_object_from_pos(IVec2::new(10, 10)).unwrap().items().is_empty());
    // nothing is left in reach
    pickup_items(&mut p, &mut floor);
    assert_eq!(p.gold, 20);
    assert_eq!(floor.get_object_from_pos(IVec2::new(30, 30)).unwrap().items().len(), 1);
}

#[test]
fn stacks_grow_and_loose_items_pile_up() {
    let mut p = Player::new(PlayerClass::Rogue, Vec2::new(0, 0));
    p.inventory.add_item(ItemInfo::new(ItemType::ThrowingKnife, None));
    assert_eq!(p.inventory().primary_item.unwrap().stack_count, Some(6));
    assert!(p.inventory().items.is_empty());
    p.inventory.add_item(ItemInfo::new(ItemType::ShortSword, None));
    assert_eq!(p.inventory().items.len(), 1);
    // a stack that the player does not have is lost
    p.inventory.add_item(ItemInfo::new(ItemType::Potion(PotionType::Regeneration), None));
    assert_eq!(p.inventory().items.len(), 1);
    assert_eq!(p.inventory().primary_item.unwrap().stack_count, Some(6));
}

#[test]
fn item_texts() {
    let knife = ItemInfo::new(ItemType::ThrowingKnife, Some(IVec2::new(1, 2)));
    assert_eq!(knife.description(), "A small but very sharp knife");
    assert_eq!(knife.texture(), "throwing_knife.webp");
    assert_eq!(knife.tile_pos(), Some(IVec2::new(1, 2)));
    assert_eq!(knife.size(), Vec2::new(30000, 30000));
    assert_eq!(knife.pos(), Vec2::new(40000, 65000));
    let mut potion = ItemInfo::new(ItemType::Potion(PotionType::Regeneration), None);
    assert_eq!(potion.size(), Vec2::new(18000, 18000));
    assert_eq!(potion.pos(), Vec2::new(9000, 9000));
    assert_eq!(potion.description(), "Helps the body to recover from damage");
    potion.cursed = true;
    assert_eq!(
        potion.description(),
        "Helps the body to recover from damage\nMalevolant energy slithers from it."
    );
    assert_eq!(ItemInfo::new(ItemType::Gold(3), None).texture(), "gold.webp");
}

#[test]
fn items_have_names() {
    let named = |item_type| roguelite::items::ItemInfo::new(item_type, None).name();
    assert_eq!(named(roguelite::items::ItemType::ShortSword), "Short Sword");
    assert_eq!(named(roguelite::items::ItemType::WizardGlove), "Wizard's Glove");
    assert_eq!(named(roguelite::items::ItemType::WizardsDagger), "Wizard's Dagger");
    assert_eq!(named(roguelite::items::ItemType::ThrowingKnife), "Throwing Knife");
    assert_eq!(named(roguelite::items::ItemType::Gold(20)), "20 gold");
    assert_eq!(named(roguelite::items::ItemType::Gold(0)), "0 gold");
    assert_eq!(named(roguelite::items::ItemType::Gold(4000000000)), "4000000000 gold");
    assert_eq!(
        named(roguelite::items::ItemType::Potion(roguelite::items::PotionType::Regeneration)),
        "Potion of Regeneration"
    );
}

#[test]
fn numbers_are_written_in_decimal() {
    assert_eq!(roguelite::items::decimal_text(0), "0");
    assert_eq!(roguelite::items::decimal_text(7), "7");
    assert_eq!(roguelite::items::decimal_text(10), "10");
    assert_eq!(roguelite::items::decimal_text(905), "905");
    assert_eq!(roguelite::items::decimal_text(u32::MAX), "4294967295");
    assert_eq!(roguelite::items::digit_text(3), "3");
}
