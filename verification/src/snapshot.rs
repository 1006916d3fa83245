//! Snapshots for going back in time: a copy of the whole state of the game
//! that is like the state it was taken of, so that the frames played from
//! the copy end where the frames played from the state itself end.

use vstd::prelude::*;
use crate::init_game::GameState;
use crate::map::{DungeonMap, Floor, FloorInfo, Object, Room};
use crate::monsters::slime::GreenSlime;
use crate::monsters::small_rat::SmallRat;
use crate::monsters::{monster_views, MonsterObj};
use crate::player::{Player, PlayerInventory};
use crate::replay::{
    same_level, same_object, same_player, same_players, same_room, same_rooms, same_state,
    same_tiles,
};

verus! {

/// A list with the same items in the same order.
pub fn copy_list<T: Copy>(list: &Vec<T>) -> (copy: Vec<T>)
    ensures
        copy@ == list@,
{
    let mut copy: Vec<T> = Vec::new();
    let mut i: usize = 0;
    while i < list.len()
        invariant
            i <= list@.len(),
            copy@ == list@.take(i as int),
        decreases list@.len() - i,
    {
        let item: T = list[i];
        copy.push(item);
        assert(copy@ =~= list@.take(i + 1));
        i = i + 1;
    }
    assert(list@.take(i as int) =~= list@);
    copy
}

/// A player like `player`.
pub fn copy_player(player: &Player) -> (copy: Player)
    ensures
        same_player(*player, copy),
{
    Player {
        angle: player.angle,
        pos: player.pos,
        speed: player.speed,
        hp: player.hp,
        mp: player.mp,
        willpower: player.willpower,
        invincibility_frames: player.invincibility_frames,
        primary_cooldown: player.primary_cooldown,
        secondary_cooldown: player.secondary_cooldown,
        spells: copy_list(&player.spells),
        changing_spell: player.changing_spell,
        time_til_change_spell: player.time_til_change_spell,
        xp: player.xp,
        level: player.level,
        gold: player.gold,
        in_inventory: player.in_inventory,
        inventory: PlayerInventory {
            primary_item: player.inventory.primary_item,
            secondary_item: player.inventory.secondary_item,
            selected_item: player.inventory.selected_item,
            items: copy_list(&player.inventory.items),
        },
        enchantments: player.enchantments,
    }
}

/// A party like `players`.
pub fn copy_players(players: &Vec<Player>) -> (copy: Vec<Player>)
    ensures
        same_players(players@, copy@),
{
    let mut copy: Vec<Player> = Vec::new();
    let mut i: usize = 0;
    while i < players.len()
        invariant
            i <= players@.len(),
            copy@.len() == i,
            forall|k: int| 0 <= k < i ==> same_player(#[trigger] players@[k], copy@[k]),
        decreases players@.len() - i,
    {
        copy.push(copy_player(&players[i]));
        i = i + 1;
    }
    copy
}

/// A tile like `object`.
pub fn copy_object(object: &Object) -> (copy: Object)
    ensures
        same_object(*object, copy),
{
    Object {
        pos: object.pos,
        is_floor: object.is_floor,
        has_been_seen: object.has_been_seen,
        currently_visible: object.currently_visible,
        items: copy_list(&object.items),
        door: object.door,
        trap: object.trap,
        effects: copy_list(&object.effects),
    }
}

/// A floor with tiles like those of `floor`.
pub fn copy_floor(floor: &Floor) -> (copy: Floor)
    ensures
        same_tiles(floor.objects@, copy.objects@),
        floor.wf() ==> copy.wf(),
{
    let mut objects: Vec<Object> = Vec::new();
    let mut i: usize = 0;
    while i < floor.objects.len()
        invariant
            i <= floor.objects@.len(),
            objects@.len() == i,
            forall|k: int| 0 <= k < i ==> same_object(#[trigger] floor.objects@[k], objects@[k]),
        decreases floor.objects@.len() - i,
    {
        objects.push(copy_object(&floor.objects[i]));
        i = i + 1;
    }
    let copy = Floor { objects };
    proof {
        if floor.wf() {
            assert forall|k: int| 0 <= k < copy.objects@.len() implies (
            #[trigger] copy.objects@[k]).pos == crate::map::tile_at(k) by {
                assert(same_object(floor.objects@[k], copy.objects@[k]));
            }
        }
    }
    copy
}

/// A room like `room`.
pub fn copy_room(room: &Room) -> (copy: Room)
    ensures
        same_room(*room, copy),
        room.wf() ==> copy.wf(),
{
    Room {
        top_left: room.top_left,
        bottom_right: room.bottom_right,
        doors: copy_list(&room.doors),
    }
}

/// Rooms like `rooms`.
pub fn copy_rooms(rooms: &Vec<Room>) -> (copy: Vec<Room>)
    ensures
        same_rooms(rooms@, copy@),
        forall|k: int| 0 <= k < rooms@.len() ==> ((#[trigger] rooms@[k]).wf() ==> copy@[k].wf()),
{
    let mut copy: Vec<Room> = Vec::new();
    let mut i: usize = 0;
    while i < rooms.len()
        invariant
            i <= rooms@.len(),
            copy@.len() == i,
            forall|k: int| 0 <= k < i ==> same_room(#[trigger] rooms@[k], copy@[k]),
            forall|k: int| 0 <= k < i ==> ((#[trigger] rooms@[k]).wf() ==> copy@[k].wf()),
        decreases rooms@.len() - i,
    {
        copy.push(copy_room(&rooms[i]));
        i = i + 1;
    }
    copy
}

/// A path like `path`.
pub fn copy_path(path: &Option<(Vec<crate::math::Vec2>, usize)>) -> (copy: Option<
    (Vec<crate::math::Vec2>, usize),
>)
    ensures
        match (*path, copy) {
            (Some(p), Some(c)) => p.0@ == c.0@ && p.1 == c.1,
            (None, None) => true,
            _ => false,
        },
{
    match path {
        Some((points, next)) => Some((copy_list(points), *next)),
        None => None,
    }
}

/// A monster with the view of `monster`.
pub fn copy_monster(monster: &MonsterObj) -> (copy: MonsterObj)
    ensures
        copy@ == monster@,
{
    match monster {
        MonsterObj::SmallRat(rat) => MonsterObj::SmallRat(
            SmallRat {
                health: rat.health,
                pos: rat.pos,
                speed_mul: rat.speed_mul,
                attack_mode: rat.attack_mode,
                time_spent_moving: rat.time_spent_moving,
                time_til_move: rat.time_til_move,
                current_path: copy_path(&rat.current_path),
                enchantments: rat.enchantments,
                damaged_by: copy_list(&rat.damaged_by),
                current_target: rat.current_target,
            },
        ),
        MonsterObj::GreenSlime(slime) => MonsterObj::GreenSlime(
            GreenSlime {
                health: slime.health,
                pos: slime.pos,
                attack_mode: slime.attack_mode,
                current_path: copy_path(&slime.current_path),
                enchantments: slime.enchantments,
                damaged_by: copy_list(&slime.damaged_by),
                current_target: slime.current_target,
                time_til_attack: slime.time_til_attack,
            },
        ),
    }
}

/// Monsters with the views of `monsters`.
pub fn copy_monsters(monsters: &Vec<MonsterObj>) -> (copy: Vec<MonsterObj>)
    ensures
        monster_views(copy@) == monster_views(monsters@),
{
    let mut copy: Vec<MonsterObj> = Vec::new();
    let mut i: usize = 0;
    while i < monsters.len()
        invariant
            i <= monsters@.len(),
            copy@.len() == i,
            forall|k: int| 0 <= k < i ==> (#[trigger] copy@[k])@ == monsters@[k]@,
        decreases monsters@.len() - i,
    {
        copy.push(copy_monster(&monsters[i]));
        i = i + 1;
    }
    assert(monster_views(copy@) =~= monster_views(monsters@));
    copy
}

/// A level like `info`.
pub fn copy_level(info: &FloorInfo) -> (copy: FloorInfo)
    ensures
        same_level(*info, copy),
        info.floor.wf() ==> copy.floor.wf(),
        forall|k: int|
            0 <= k < info.rooms@.len() ==> ((#[trigger] info.rooms@[k]).wf() ==> copy.rooms@[k].wf()),
        copy.rooms@.len() == info.rooms@.len(),
{
    FloorInfo {
        spawn: info.spawn,
        monster_types: copy_list(&info.monster_types),
        item_types: copy_list(&info.item_types),
        monsters: copy_monsters(&info.monsters),
        floor: copy_floor(&info.floor),
        rooms: copy_rooms(&info.rooms),
        exit: copy_object(&info.exit),
    }
}

/// A dungeon with levels like those of `map`, and the party on the same
/// floor.
pub fn copy_map(map: &DungeonMap) -> (copy: DungeonMap)
    ensures
        copy.current_floor_index == map.current_floor_index,
        copy.rooms@.len() == map.rooms@.len(),
        forall|k: int|
            0 <= k < map.rooms@.len() ==> same_level(#[trigger] map.rooms@[k], copy.rooms@[k]),
        map.wf() ==> copy.wf(),
{
    let mut rooms: Vec<FloorInfo> = Vec::new();
    let mut i: usize = 0;
    while i < map.rooms.len()
        invariant
            i <= map.rooms@.len(),
            rooms@.len() == i,
            forall|k: int| 0 <= k < i ==> same_level(#[trigger] map.rooms@[k], rooms@[k]),
            forall|k: int|
                0 <= k < i ==> ((#[trigger] map.rooms@[k]).floor.wf() ==> rooms@[k].floor.wf()),
            forall|k: int|
                0 <= k < i ==> rooms@[k].rooms@.len() == (#[trigger] map.rooms@[k]).rooms@.len(),
            forall|k: int, j: int|
                0 <= k < i && 0 <= j < map.rooms@[k].rooms@.len() ==> ((
                #[trigger] map.rooms@[k].rooms@[j]).wf() ==> rooms@[k].rooms@[j].wf()),
        decreases map.rooms@.len() - i,
    {
        rooms.push(copy_level(&map.rooms[i]));
        i = i + 1;
    }
    let copy = DungeonMap { current_floor_index: map.current_floor_index, rooms };
    proof {
        if map.wf() {
            assert forall|k: int| 0 <= k < copy.rooms@.len() implies (
            #[trigger] copy.rooms@[k]).floor.wf() && forall|j: int|
                0 <= j < copy.rooms@[k].rooms@.len() ==> (#[trigger] copy.rooms@[k].rooms@[j]).wf() by {
                assert(map.rooms@[k].floor.wf());
                assert forall|j: int| 0 <= j < copy.rooms@[k].rooms@.len() implies (
                #[trigger] copy.rooms@[k].rooms@[j]).wf() by {
                    assert(map.rooms@[k].rooms@[j].wf());
                }
            }
        }
    }
    copy
}

impl GameState {
    /// A snapshot of the game: a state like this one, from which the same
    /// inputs lead through the same frames.
    pub fn snapshot(&self) -> (copy: GameState)
        ensures
            same_state(*self, copy),
            self.wf() ==> copy.wf(),
    {
        let copy = GameState {
            frame: self.frame,
            players: copy_players(&self.players),
            attacks: copy_list(&self.attacks),
            map: copy_map(&self.map),
            rng: self.rng,
        };
        proof {
            reveal(same_state);
        }
        copy
    }

    /// Goes back to `snapshot`: the game is like the snapshot afterwards.
    pub fn restore(&mut self, snapshot: &GameState)
        ensures
            same_state(*snapshot, *final(self)),
            snapshot.wf() ==> final(self).wf(),
    {
        *self = snapshot.snapshot();
    }
}

} // verus!
