use roguelite::generation::{
    adjust_bend, carve_hallway, carve_hallways, make_room, place_rooms, plan_level, propose_room,
    roll_floor_tile, shuffle_sites, RoomSite,
};
use roguelite::items::{ItemInfo, ItemType};
use roguelite::map::{
    distance_squared, find_path, find_viable_neighbors, path_along, pos_to_tile, spawn_pack,
    tile_index,
    tile_to_world, tile_to_world_center, update_effects, world_to_tile, Door, DungeonMap, Effect,
    EffectType, Floor, FloorInfo, GenerationError, Object, Room, TrapType, MAP_HEIGHT_TILES,
    MAP_WIDTH_TILES,
};
use roguelite::monsters::MonsterKind;
use roguelite::math::{AsPolygon, IVec2, Vec2};
use roguelite::player::{Player, PlayerClass};
use roguelite::rng::Rng;

/// A floor that is wall but for a corridor along row 5 from column `from`
/// to column `to`.
fn corridor_floor(from: i32, to: i32) -> Floor {
    let mut floor = Floor::solid();
    for x in from..=to {
        assert!(floor.set_object(Object::floor(IVec2::new(x, 5))));
    }
    floor
}

/// A player whose center is the middle of the given tile.
fn player_on(tile: IVec2) -> Player {
    let center = tile_to_world_center(tile);
    Player::new(PlayerClass::Warrior, Vec2::new(center.x - 6000, center.y - 6000))
}

#[test]
fn tiles_and_world_positions_convert() {
    assert_eq!(tile_to_world(IVec2::new(2, 3)), Vec2::new(50000, 75000));
    assert_eq!(tile_to_world_center(IVec2::new(2, 3)), Vec2::new(62500, 87500));
    assert_eq!(world_to_tile(Vec2::new(62500, 87500)), IVec2::new(2, 3));
    assert_eq!(world_to_tile(Vec2::new(24999, 25000)), IVec2::new(0, 1));
    assert_eq!(world_to_tile(Vec2::new(-1, -25001)), IVec2::new(-1, -2));
    assert_eq!(pos_to_tile(&player_on(IVec2::new(7, 9))), IVec2::new(7, 9));
}

#[test]
fn tile_index_is_row_major() {
    assert_eq!(tile_index(IVec2::new(0, 0)), Some(0));
    assert_eq!(tile_index(IVec2::new(3, 2)), Some(103));
    assert_eq!(tile_index(IVec2::new(49, 49)), Some(2499));
    assert_eq!(tile_index(IVec2::new(50, 0)), None);
    assert_eq!(tile_index(IVec2::new(-1, 1)), None);
    assert_eq!(tile_index(IVec2::new(0, 50)), None);
}

#[test]
fn squared_distance_between_tiles() {
    assert_eq!(distance_squared(IVec2::new(0, 0), IVec2::new(3, 4)), 25);
    assert_eq!(distance_squared(IVec2::new(5, 5), IVec2::new(5, 5)), 0);
    assert_eq!(distance_squared(IVec2::new(-2, 1), IVec2::new(1, -3)), 25);
}

#[test]
fn solid_floor_is_dense_and_all_wall() {
    let floor = Floor::solid();
    assert_eq!(floor.objects().len(), MAP_WIDTH_TILES * MAP_HEIGHT_TILES);
    for (i, o) in floor.objects().iter().enumerate() {
        assert_eq!(o.tile_pos(), IVec2::new((i % 50) as i32, (i / 50) as i32));
        assert!(o.is_collidable());
    }
}

#[test]
fn objects_are_found_by_position() {
    let floor = corridor_floor(2, 8);
    assert!(!floor.get_object_from_pos(IVec2::new(2, 5)).unwrap().is_collidable());
    assert!(floor.get_object_from_pos(IVec2::new(1, 5)).unwrap().is_collidable());
    assert!(floor.get_object_from_pos(IVec2::new(50, 5)).is_none());
    assert!(floor.get_object_from_pos(IVec2::new(-1, 5)).is_none());
}

#[test]
fn set_object_refuses_positions_off_the_map() {
    let mut floor = Floor::solid();
    assert!(!floor.set_object(Object::floor(IVec2::new(50, 50))));
    assert!(floor.set_object(Object::floor(IVec2::new(49, 49))));
    assert!(!floor.objects()[2499].is_collidable());
}

#[test]
fn doors_stop_movement_only_while_closed() {
    let mut o = Object::wall(IVec2::new(3, 3));
    o.door = Some(Door { pos: IVec2::new(3, 3), is_open: false });
    assert!(o.is_collidable());
    assert_eq!(o.texture(), "door.webp");
    o.open_door();
    assert!(!o.is_collidable());
    assert_eq!(o.texture(), "open_door.webp");
    o.close_door();
    assert!(o.is_collidable());
    let mut plain = Object::wall(IVec2::new(3, 3));
    plain.open_door();
    assert!(plain.is_collidable());
    assert_eq!(plain.texture(), "black.webp");
    assert_eq!(Object::floor(IVec2::new(1, 1)).texture(), "light_gray.webp");
}

#[test]
fn floor_collision_finds_walls() {
    let floor = corridor_floor(2, 8);
    let p = player_on(IVec2::new(4, 5));
    assert!(!floor.collision(&p, Vec2::zero()));
    assert!(floor.collision(&p, Vec2::new(0, 10000)));
    assert!(!floor.collision(&p, Vec2::new(25000, 0)));
    let hit = floor.collision_obj(&p, Vec2::new(0, 10000)).unwrap();
    assert!(hit.is_collidable());
    assert!(floor.collision_obj(&p, Vec2::zero()).is_none());
    let dir = floor.collision_dir(&p, Vec2::new(2200, 10000));
    assert!(!dir.x);
    assert!(dir.y);
}

#[test]
fn doors_and_traps_are_listed_in_array_order() {
    let mut floor = Floor::solid();
    let mut door = Object::wall(IVec2::new(3, 1));
    door.door = Some(Door { pos: IVec2::new(3, 1), is_open: false });
    floor.set_object(door);
    let mut other = Object::wall(IVec2::new(1, 0));
    other.door = Some(Door { pos: IVec2::new(1, 0), is_open: true });
    floor.set_object(other);
    assert_eq!(floor.doors(), vec![1, 53]);
    assert!(floor.untriggered_traps().is_empty());
    let mut trapped = Object::floor(IVec2::new(2, 2));
    trapped.trap = Some(roguelite::map::Trap {
        triggered: false,
        trap_type: roguelite::map::TrapType::Teleport,
    });
    floor.set_object(trapped);
    let mut spent = Object::floor(IVec2::new(3, 2));
    spent.trap = Some(roguelite::map::Trap {
        triggered: true,
        trap_type: roguelite::map::TrapType::SpawnMonster,
    });
    floor.set_object(spent);
    assert_eq!(floor.untriggered_traps(), vec![102]);
}

#[test]
fn items_are_added_to_their_tile() {
    let mut floor = corridor_floor(2, 8);
    let item = ItemInfo::new(ItemType::ThrowingKnife, Some(IVec2::new(3, 5)));
    floor.add_item_to_object(item);
    assert_eq!(floor.get_object_from_pos(IVec2::new(3, 5)).unwrap().items(), &vec![item]);
    assert!(floor.get_object_from_pos(IVec2::new(4, 5)).unwrap().items().is_empty());
}

#[test]
fn sight_is_stopped_by_walls() {
    let floor = corridor_floor(2, 8);
    let visible = floor.visible_objects(&player_on(IVec2::new(2, 5)), Some(12));
    let sees = |tile: IVec2| visible.contains(&tile_index(tile).unwrap());
    assert!(sees(IVec2::new(2, 5)));
    assert!(sees(IVec2::new(8, 5)));
    // the wall at the end of the corridor is seen, what lies behind is not
    assert!(sees(IVec2::new(9, 5)));
    assert!(!sees(IVec2::new(10, 5)));
    // the walls along the corridor are seen, the row behind them is not
    assert!(sees(IVec2::new(2, 4)));
    assert!(!sees(IVec2::new(2, 3)));
}

#[test]
fn looking_marks_tiles_as_seen() {
    let mut floor = corridor_floor(2, 8);
    let visible = floor.visible_objects_mut(&player_on(IVec2::new(2, 5)), Some(3));
    assert!(!visible.is_empty());
    for (i, o) in floor.objects().iter().enumerate() {
        assert_eq!(o.has_been_seen(), visible.contains(&i));
        assert_eq!(o.currently_visible(), visible.contains(&i));
    }
    floor.clear_currently_visible();
    for (i, o) in floor.objects().iter().enumerate() {
        assert_eq!(o.has_been_seen(), visible.contains(&i));
        assert!(!o.currently_visible());
    }
}

#[test]
fn neighbors_are_the_walkable_tiles_next_door() {
    let floor = corridor_floor(2, 8);
    let n = find_viable_neighbors(&floor, IVec2::new(4, 5), &None, false, None);
    assert_eq!(n, vec![(IVec2::new(3, 5), 1), (IVec2::new(5, 5), 1)]);
    let at_end = find_viable_neighbors(&floor, IVec2::new(2, 5), &None, false, None);
    assert_eq!(at_end, vec![(IVec2::new(3, 5), 1)]);
    let corner = find_viable_neighbors(&floor, IVec2::new(0, 0), &None, false, None);
    assert!(corner.is_empty());
    let limited = find_viable_neighbors(&floor, IVec2::new(4, 5), &Some(vec![255]), false, None);
    assert_eq!(limited, vec![(IVec2::new(5, 5), 1)]);
}

#[test]
fn path_along_a_corridor_has_one_waypoint_per_step() {
    let floor = corridor_floor(2, 8);
    let start = player_on(IVec2::new(2, 5));
    let goal = Object::floor(IVec2::new(8, 5));
    let path = find_path(&start, &goal, &floor, false, false, None).unwrap();
    assert_eq!(path.len(), 6);
    for (k, waypoint) in path.iter().enumerate() {
        assert_eq!(*waypoint, tile_to_world_center(IVec2::new(3 + k as i32, 5)));
    }
    for k in 1..path.len() {
        assert!(path[k].x > path[k - 1].x);
        assert_eq!(path[k].y, path[k - 1].y);
    }
    let seen_only = floor.find_path(&start, &goal, true, false, None).unwrap();
    assert_eq!(seen_only, path);
}

#[test]
fn path_to_a_wall_does_not_exist() {
    let floor = corridor_floor(2, 8);
    let start = player_on(IVec2::new(2, 5));
    let goal = Object::wall(IVec2::new(9, 5));
    assert!(find_path(&start, &goal, &floor, false, false, None).is_none());
    assert!(find_path(&start, &goal, &floor, false, true, None).is_none());
    let off_map = Object::floor(IVec2::new(60, 5));
    assert!(find_path(&start, &off_map, &floor, false, false, None).is_none());
}

#[test]
fn path_to_the_own_tile_is_empty() {
    let floor = corridor_floor(2, 8);
    let start = player_on(IVec2::new(4, 5));
    let goal = Object::floor(IVec2::new(4, 5));
    assert_eq!(find_path(&start, &goal, &floor, false, false, None), Some(Vec::new()));
}

#[test]
fn path_goes_through_doors_only_when_told_to() {
    let mut floor = corridor_floor(2, 8);
    let mut door = Object::wall(IVec2::new(5, 5));
    door.door = Some(Door { pos: IVec2::new(5, 5), is_open: false });
    floor.set_object(door);
    let start = player_on(IVec2::new(2, 5));
    let goal = Object::floor(IVec2::new(8, 5));
    assert!(find_path(&start, &goal, &floor, false, false, None).is_none());
    let through = find_path(&start, &goal, &floor, false, true, None).unwrap();
    assert_eq!(through.len(), 6);
    // what lies behind the closed door is not seen, so no way is planned there
    assert!(find_path(&start, &goal, &floor, true, true, None).is_none());
}

#[test]
fn path_goes_around_a_bend() {
    let mut floor = corridor_floor(2, 8);
    for y in 6..=9 {
        floor.set_object(Object::floor(IVec2::new(8, y)));
    }
    let start = player_on(IVec2::new(2, 5));
    let goal = Object::floor(IVec2::new(8, 9));
    let path = find_path(&start, &goal, &floor, false, false, None).unwrap();
    assert_eq!(path.len(), 10);
    assert_eq!(path[path.len() - 1], tile_to_world_center(IVec2::new(8, 9)));
    let mut at = IVec2::new(2, 5);
    for waypoint in path.iter() {
        let tile = world_to_tile(*waypoint);
        assert_eq!((tile.x - at.x).abs() + (tile.y - at.y).abs(), 1);
        assert!(!floor.get_object_from_pos(tile).unwrap().is_collidable());
        at = tile;
    }
}

#[test]
fn effects_fade_frame_by_frame() {
    let mut floor = Floor::solid();
    let mut o = Object::floor(IVec2::new(1, 1));
    o.effects.push(Effect { time_til_dissipate: Some(2), effect_type: EffectType::Slimed });
    o.effects.push(Effect { time_til_dissipate: None, effect_type: EffectType::Slimed });
    floor.set_object(o);
    update_effects(&mut floor);
    assert_eq!(
        floor.objects()[51].effects,
        vec![
            Effect { time_til_dissipate: Some(1), effect_type: EffectType::Slimed },
            Effect { time_til_dissipate: None, effect_type: EffectType::Slimed },
        ]
    );
    update_effects(&mut floor);
    assert_eq!(
        floor.objects()[51].effects,
        vec![Effect { time_til_dissipate: None, effect_type: EffectType::Slimed }]
    );
}

#[test]
fn room_geometry() {
    let room = Room { top_left: IVec2::new(2, 3), bottom_right: IVec2::new(10, 12), doors: Vec::new() };
    assert_eq!(room.extents(), (IVec2::new(2, 3), IVec2::new(10, 12)));
    assert_eq!(room.center(), IVec2::new(6, 7));
    assert!(room.inside_room(IVec2::new(3, 4)));
    assert!(!room.inside_room(IVec2::new(2, 4)));
    assert!(!room.inside_room(IVec2::new(10, 11)));
    let walls = room.generate_walls();
    // two runs of eight tiles and two runs of ten
    assert_eq!(walls.len(), 36);
    for w in walls.iter() {
        let on_x = w.x == 2 || w.x == 10;
        let on_y = w.y == 3 || w.y == 12;
        assert!(on_x || on_y);
        assert!(w.x >= 2 && w.x <= 10 && w.y >= 3 && w.y <= 12);
    }
    for x in 2..=10 {
        assert!(walls.contains(&IVec2::new(x, 3)));
        assert!(walls.contains(&IVec2::new(x, 12)));
    }
    for y in 3..=12 {
        assert!(walls.contains(&IVec2::new(2, y)));
        assert!(walls.contains(&IVec2::new(10, y)));
    }
}

#[test]
fn rooms_are_placed_apart_and_on_the_map() {
    let mut rng = Rng::new(1);
    let mut sites = place_rooms(&mut rng);
    assert!(!sites.is_empty());
    let before = sites.clone();
    shuffle_sites(&mut sites, &mut rng);
    assert_eq!(sites.len(), before.len());
    for s in before.iter() {
        assert!(sites.contains(s));
    }
    for (i, a) in sites.iter().enumerate() {
        assert!(a.top_left.x >= 0 && a.top_left.y >= 0);
        assert!(a.bottom_right.x <= 50 && a.bottom_right.y <= 50);
        let w = a.bottom_right.x - a.top_left.x;
        let h = a.bottom_right.y - a.top_left.y;
        assert!(w >= 8 && w < 14 && h >= 8 && h < 14);
        for (j, b) in sites.iter().enumerate() {
            if i != j {
                assert!(!a.is_too_close(b));
            }
        }
    }
}

#[test]
fn bends_are_moved_out_of_line_with_walls() {
    let sites = vec![
        RoomSite { top_left: IVec2::new(10, 10), bottom_right: IVec2::new(20, 20) },
        RoomSite { top_left: IVec2::new(30, 30), bottom_right: IVec2::new(40, 40) },
    ];
    // in line with no wall: kept
    assert_eq!(adjust_bend(&sites, IVec2::new(15, 15)), Some(IVec2::new(15, 15)));
    // in line with the first room's left wall: moved two tiles to the left,
    // which is out of line with the first room
    assert_eq!(adjust_bend(&sites, IVec2::new(10, 15)), Some(IVec2::new(8, 15)));
}

#[test]
fn hallways_are_l_shaped() {
    let mut tiles = Vec::new();
    carve_hallway(IVec2::new(5, 10), IVec2::new(8, 7), &mut tiles);
    let mut expected = vec![
        IVec2::new(5, 10),
        IVec2::new(6, 10),
        IVec2::new(7, 10),
        IVec2::new(8, 10),
    ];
    for y in 6..=10 {
        expected.push(IVec2::new(8, y));
    }
    assert_eq!(tiles, expected);
}

#[test]
fn rooms_get_doors_where_hallways_cross_their_walls() {
    let site = RoomSite { top_left: IVec2::new(10, 10), bottom_right: IVec2::new(20, 20) };
    let hallways = vec![
        IVec2::new(9, 15),
        IVec2::new(10, 15),
        IVec2::new(11, 15),
        // a corner never gets a door
        IVec2::new(20, 20),
    ];
    let room = make_room(site, &hallways);
    assert_eq!(room.doors, vec![Door { pos: IVec2::new(10, 15), is_open: false }]);
    let lonely = make_room(site, &vec![IVec2::new(1, 1)]);
    assert!(lonely.doors.is_empty());
}

#[test]
fn a_level_without_rooms_is_refused() {
    let mut rng = Rng::new(3);
    let sites = vec![RoomSite { top_left: IVec2::new(10, 10), bottom_right: IVec2::new(20, 20) }];
    let before = rng;
    let r = FloorInfo::assemble(&sites, &Vec::new(), &mut rng);
    assert_eq!(r.err(), Some(GenerationError::NoRooms));
    assert_eq!(rng, before);
    let none = FloorInfo::assemble(&Vec::new(), &Vec::new(), &mut rng);
    assert_eq!(none.err(), Some(GenerationError::NoRooms));
}

#[test]
fn an_assembled_level_agrees_with_its_rooms() {
    let mut rng = Rng::new(3);
    let sites = vec![
        RoomSite { top_left: IVec2::new(10, 10), bottom_right: IVec2::new(20, 20) },
        RoomSite { top_left: IVec2::new(30, 10), bottom_right: IVec2::new(40, 20) },
        RoomSite { top_left: IVec2::new(10, 30), bottom_right: IVec2::new(20, 40) },
    ];
    let mut hallways = Vec::new();
    carve_hallway(IVec2::new(15, 15), IVec2::new(35, 15), &mut hallways);
    let info = FloorInfo::assemble(&sites, &hallways, &mut rng).unwrap();
    // the third room is reached by no hallway
    assert_eq!(info.rooms().len(), 2);
    let at = |x: i32, y: i32| info.floor.get_object_from_pos(IVec2::new(x, y)).unwrap();
    // inside a room: floor
    assert!(!at(15, 15).is_collidable());
    assert!(!at(11, 11).is_collidable());
    // the hallway between the rooms: floor
    assert!(!at(25, 15).is_collidable());
    // the doors where the hallway meets the walls
    assert!(at(20, 15).door().is_some());
    assert!(at(30, 15).door().is_some());
    assert!(at(20, 15).is_collidable());
    // walls without a hallway: plain wall
    assert!(at(20, 12).door().is_none());
    assert!(at(20, 12).is_collidable());
    // the room that was left out is solid
    assert!(at(15, 35).is_collidable());
    // beside the hallway: wall
    assert!(at(25, 17).is_collidable());
    let centers: Vec<IVec2> = info.rooms().iter().map(|r| r.center()).collect();
    assert!(centers.contains(&world_to_tile(info.current_spawn())));
    assert!(centers.contains(&info.exit().tile_pos()));
}

#[test]
fn a_generated_level_is_consistent() {
    let mut rng = Rng::new(1000);
    let info = FloorInfo::new(0, &mut rng).unwrap();
    assert_eq!(info.floor.objects().len(), MAP_WIDTH_TILES * MAP_HEIGHT_TILES);
    assert!(!info.rooms().is_empty());
    for room in info.rooms().iter() {
        assert!(!room.doors.is_empty());
        let (tl, br) = room.extents();
        for x in tl.x..=br.x {
            for y in tl.y..=br.y {
                let pos = IVec2::new(x, y);
                let o = match info.floor.get_object_from_pos(pos) {
                    Some(o) => o,
                    // a wall may run just off the map
                    None => {
                        assert!(x == 50 || y == 50);
                        continue;
                    }
                };
                if room.inside_room(pos) {
                    assert!(!o.is_collidable());
                    assert!(o.door().is_none());
                } else {
                    assert!(o.is_collidable());
                    assert_eq!(o.door().is_some(), room.doors.iter().any(|d| d.pos == pos));
                }
            }
        }
    }
    for x in 0..50 {
        assert!(info.floor.get_object_from_pos(IVec2::new(x, 0)).unwrap().is_collidable());
        assert!(info.floor.get_object_from_pos(IVec2::new(0, x)).unwrap().is_collidable());
    }
    let spawn_tile = world_to_tile(info.current_spawn());
    assert!(info.rooms().iter().any(|r| r.center() == spawn_tile));
    assert!(info.rooms().iter().any(|r| r.center() == info.exit().tile_pos()));
    for m in info.monsters.iter() {
        assert!(m.living());
        let tile = world_to_tile(m.pos());
        assert!(info
            .rooms()
            .iter()
            .any(|r| r.inside_room(tile) && !r.inside_room(spawn_tile)));
    }
}

#[test]
fn generation_is_a_function_of_the_seed() {
    let mut a = Rng::new(77);
    let mut b = Rng::new(77);
    let first = FloorInfo::new(0, &mut a).unwrap();
    let second = FloorInfo::new(0, &mut b).unwrap();
    assert_eq!(format!("{:?}", first), format!("{:?}", second));
    assert_eq!(a, b);
}

#[test]
fn the_dungeon_has_five_floors() {
    let mut rng = Rng::new(1000);
    let mut map = DungeonMap::new(&mut rng).unwrap();
    assert_eq!(map.rooms.len(), 5);
    assert_eq!(map.current_floor_index, 0);
    let mut players = vec![Player::new(PlayerClass::Rogue, Vec2::new(1, 2))];
    let below = map.rooms[1].current_spawn();
    map.descend(&mut players);
    assert_eq!(map.current_floor_index, 1);
    assert_eq!(players[0].pos(), below);
    assert_eq!(map.current_floor().current_spawn(), below);
    for _ in 0..10 {
        map.descend(&mut players);
    }
    assert_eq!(map.current_floor_index, 4);
    assert_eq!(players[0].pos(), map.rooms[4].current_spawn());
}

#[test]
fn a_proposed_room_takes_four_draws() {
    let mut rng = Rng::new(5);
    let mut draws = rng;
    let site = propose_room(&mut rng);
    let x = draws.gen_range(0, 50);
    let y = draws.gen_range(0, 50);
    let w = draws.gen_range(8, 14);
    let h = draws.gen_range(8, 14);
    assert_eq!(site.top_left, IVec2::new(x, y));
    assert_eq!(site.bottom_right, IVec2::new(x + w, y + h));
    assert_eq!(rng, draws);
}

#[test]
fn a_plan_places_shuffles_and_carves() {
    let mut rng = Rng::new(21);
    let (sites, hallways) = plan_level(&mut rng);
    let mut steps = Rng::new(21);
    let mut expected = place_rooms(&mut steps);
    shuffle_sites(&mut expected, &mut steps);
    let carved = carve_hallways(&expected, &mut steps);
    assert_eq!(sites, expected);
    assert_eq!(hallways, carved);
    assert_eq!(rng, steps);
    assert!(!hallways.is_empty());
    for tile in hallways.iter() {
        assert!(tile.x >= 1 && tile.x <= 48 && tile.y >= 1 && tile.y <= 48);
    }
}

#[test]
fn a_level_is_refused_exactly_if_no_room_has_a_door() {
    for seed in 0..6u64 {
        let mut rng = Rng::new(seed);
        let (sites, hallways) = plan_level(&mut rng);
        let reached = sites.iter().any(|s| !make_room(*s, &hallways).doors.is_empty());
        let mut again = Rng::new(seed);
        assert_eq!(FloorInfo::new(0, &mut again).is_ok(), reached);
    }
}

#[test]
fn the_rooms_of_a_level_are_the_planned_sites_with_a_door() {
    let mut rng = Rng::new(33);
    let (sites, hallways) = plan_level(&mut rng);
    let kept: Vec<RoomSite> = sites
        .iter()
        .copied()
        .filter(|s| !make_room(*s, &hallways).doors.is_empty())
        .collect();
    let mut again = Rng::new(33);
    let info = FloorInfo::new(0, &mut again).unwrap();
    let rooms: Vec<RoomSite> = info
        .rooms()
        .iter()
        .map(|r| RoomSite { top_left: r.top_left, bottom_right: r.bottom_right })
        .collect();
    assert_eq!(rooms, kept);
}

#[test]
fn a_floor_tile_is_rolled_with_two_or_three_draws() {
    let mut trapped = 0;
    let mut potions = 0;
    let mut rng = Rng::new(9);
    for n in 0..20000 {
        let mut draws = rng;
        let pos = IVec2::new(n % 50, (n / 50) % 50);
        let o = roll_floor_tile(pos, &mut rng);
        let is_trap = draws.gen_range(1, 250) == 100;
        let kind = if is_trap {
            Some(if draws.rand() > u32::MAX / 2 {
                TrapType::Teleport
            } else {
                TrapType::SpawnMonster
            })
        } else {
            None
        };
        let has_potion = draws.gen_range(0, 50) == 25;
        assert_eq!(rng, draws);
        assert_eq!(o.tile_pos(), pos);
        assert!(!o.is_collidable());
        assert_eq!(o.trap.map(|t| t.trap_type), kind);
        assert!(o.trap.map_or(true, |t| !t.triggered));
        assert_eq!(o.items().len(), if has_potion { 1 } else { 0 });
        if has_potion {
            assert_eq!(o.items()[0].tile_pos, Some(pos));
            potions += 1;
        }
        if is_trap {
            trapped += 1;
        }
    }
    assert!(trapped > 0);
    assert!(potions > 0);
}

#[test]
fn a_pack_of_monsters_is_spawned_in_one_place() {
    let kinds = vec![MonsterKind::SmallRat, MonsterKind::GreenSlime];
    let pos = Vec2::new(250000, 300000);
    let mut rng = Rng::new(4);
    let mut monsters = Vec::new();
    spawn_pack(&mut monsters, &kinds, pos, 4, &mut rng);
    assert_eq!(monsters.len(), 4);
    for m in monsters.iter() {
        assert_eq!(m.pos(), pos);
        assert!(m.living());
    }
    let before = rng;
    spawn_pack(&mut monsters, &kinds, pos, 0, &mut rng);
    spawn_pack(&mut monsters, &kinds, pos, -3, &mut rng);
    assert_eq!(monsters.len(), 4);
    assert_eq!(rng, before);
}

#[test]
fn tiles_are_changed_in_place() {
    let mut floor = corridor_floor(2, 6);
    let place = tile_index(IVec2::new(3, 5)).unwrap();
    floor.objects_mut()[place].has_been_seen = true;
    floor.objects_mut()[place].items_mut().push(ItemInfo::new(ItemType::Gold(3), Some(IVec2::new(3, 5))));
    let o = floor.get_object_from_pos(IVec2::new(3, 5)).unwrap();
    assert!(o.has_been_seen);
    assert_eq!(o.items().len(), 1);
    assert_eq!(o.items()[0].item_type, ItemType::Gold(3));
    assert_eq!(floor.objects().len(), MAP_WIDTH_TILES * MAP_HEIGHT_TILES);
    *floor.get_object_from_pos_mut(IVec2::new(4, 5)).unwrap() = Object::wall(IVec2::new(4, 5));
    assert!(floor.get_object_from_pos(IVec2::new(4, 5)).unwrap().is_collidable());
    assert!(floor.get_object_from_pos_mut(IVec2::new(50, 5)).is_none());
}

#[test]
fn the_waypoints_of_a_route_are_the_centers_after_the_first() {
    let route = vec![IVec2::new(2, 5), IVec2::new(3, 5), IVec2::new(3, 6)];
    assert_eq!(
        path_along(&route),
        vec![Vec2::new(87500, 137500), Vec2::new(87500, 162500)]
    );
    assert!(path_along(&vec![IVec2::new(2, 5)]).is_empty());
    assert!(path_along(&Vec::new()).is_empty());
}

#[test]
fn the_default_tile_is_a_bare_wall() {
    let o = Object::default();
    assert_eq!(o.tile_pos(), IVec2::new(0, 0));
    assert!(o.is_collidable());
    assert!(!o.has_been_seen);
    assert!(o.items().is_empty());
    assert!(o.door().is_none());
    assert!(o.trap.is_none());
    assert!(o.effects.is_empty());
}
