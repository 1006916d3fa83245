//! The traps take alike states to alike states.

use vstd::prelude::*;
use crate::init_game::{traps_stepped, GameState};
use crate::map::{Object, Room};
use crate::math::AsPolygon;
use crate::monsters::MonsterView;
use crate::player::Player;
use crate::replay::{
    lemma_same_but_floor, lemma_same_floor, same_level, same_object, same_player, same_players,
    same_room, same_rooms, same_state, same_tiles,
};

verus! {

/// Whether two worlds of traps are alike.
pub open spec fn same_trap_world(a: crate::map::TrapWorld, b: crate::map::TrapWorld) -> bool {
    &&& same_tiles(a.objects, b.objects)
    &&& a.monsters == b.monsters
    &&& same_players(a.players, b.players)
    &&& a.state == b.state
}

/// A draw selects the same tile in alike rooms.
pub proof fn lemma_drawn_tile(r1: Room, r2: Room, state: u64)
    requires
        same_room(r1, r2),
    ensures
        crate::map::drawn_tile(r1, state) == crate::map::drawn_tile(r2, state),
{
}

/// A tile is inside the same room of alike lists of rooms.
pub proof fn lemma_room_around(
    rooms1: Seq<Room>,
    rooms2: Seq<Room>,
    tile: crate::math::IVec2,
    from: int,
)
    requires
        same_rooms(rooms1, rooms2),
    ensures
        crate::map::room_around(rooms1, tile, from) == crate::map::room_around(rooms2, tile, from),
    decreases rooms1.len() - from,
{
    if !(from < 0 || from >= rooms1.len()) {
        assert(same_room(rooms1[from], rooms2[from]));
        if !rooms1[from].inside(tile) {
            lemma_room_around(rooms1, rooms2, tile, from + 1);
        }
    }
}

/// A burst of monsters comes out the same in alike rooms.
pub proof fn lemma_burst(
    monsters: Seq<MonsterView>,
    state: u64,
    r1: Room,
    r2: Room,
    kinds: Seq<crate::monsters::MonsterKind>,
    n: int,
)
    requires
        same_room(r1, r2),
    ensures
        crate::map::burst(monsters, state, r1, kinds, n) == crate::map::burst(
            monsters,
            state,
            r2,
            kinds,
            n,
        ),
    decreases n,
{
    if n > 0 {
        lemma_burst(monsters, state, r1, r2, kinds, n - 1);
        lemma_drawn_tile(r1, r2, crate::map::burst(monsters, state, r1, kinds, n - 1).1);
    }
}

/// A trap that goes off takes alike worlds to alike worlds.
pub proof fn lemma_sprung(
    w1: crate::map::TrapWorld,
    w2: crate::map::TrapWorld,
    rooms1: Seq<Room>,
    rooms2: Seq<Room>,
    kinds: Seq<crate::monsters::MonsterKind>,
    place: int,
    i: int,
)
    requires
        same_trap_world(w1, w2),
        same_rooms(rooms1, rooms2),
        0 <= place < w1.objects.len(),
        0 <= i < w1.players.len(),
    ensures
        same_trap_world(
            crate::map::sprung(w1, rooms1, kinds, place, i),
            crate::map::sprung(w2, rooms2, kinds, place, i),
        ),
        crate::map::sprung(w1, rooms1, kinds, place, i).objects.len() == w1.objects.len(),
        crate::map::sprung(w1, rooms1, kinds, place, i).players.len() == w1.players.len(),
{
    assert(same_object(w1.objects[place], w2.objects[place]));
    assert(same_player(w1.players[i], w2.players[i]));
    assert(same_object(
        crate::map::tripped(w1.objects[place]),
        crate::map::tripped(w2.objects[place]),
    ));
    let o1 = w1.objects.update(place, crate::map::tripped(w1.objects[place]));
    let o2 = w2.objects.update(place, crate::map::tripped(w2.objects[place]));
    assert(same_tiles(o1, o2)) by {
        assert forall|k: int| 0 <= k < o1.len() implies same_object(#[trigger] o1[k], o2[k]) by {
            assert(same_object(w1.objects[k], w2.objects[k]));
        }
    }
    match w1.objects[place].trap {
        Some(trap) => match trap.trap_type {
            crate::map::TrapType::Teleport => {
                if rooms1.len() > 0 {
                    let r = crate::map::drawn_index(rooms1.len() as int, w1.state);
                    crate::map::lemma_drawn_index_bounds(rooms1.len() as int, w1.state);
                    assert(same_room(rooms1[r], rooms2[r]));
                    lemma_drawn_tile(rooms1[r], rooms2[r], crate::rng::next_state(w1.state));
                    let pos = crate::map::tile_corner(
                        crate::map::drawn_tile(rooms1[r], crate::rng::next_state(w1.state)),
                    );
                    let p1 = w1.players.update(i, Player { pos, ..w1.players[i] });
                    let p2 = w2.players.update(i, Player { pos, ..w2.players[i] });
                    assert(same_players(p1, p2)) by {
                        assert forall|k: int| 0 <= k < p1.len() implies same_player(
                            #[trigger] p1[k],
                            p2[k],
                        ) by {
                            assert(same_player(w1.players[k], w2.players[k]));
                        }
                    }
                }
            },
            crate::map::TrapType::SpawnMonster => {
                let tile = crate::map::tile_of(w1.players[i].polygon().center);
                lemma_room_around(rooms1, rooms2, tile, 0);
                match crate::map::room_around(rooms1, tile, 0) {
                    Some(r) => {
                        lemma_room_around_in_range(rooms1, tile, 0);
                        assert(same_room(rooms1[r], rooms2[r]));
                        lemma_burst(w1.monsters, w1.state, rooms1[r], rooms2[r], kinds, 6);
                    },
                    None => {},
                }
            },
        },
        None => {},
    }
}

/// The room that is found around a tile is one of the rooms.
pub proof fn lemma_room_around_in_range(rooms: Seq<Room>, tile: crate::math::IVec2, from: int)
    ensures
        crate::map::room_around(rooms, tile, from) matches Some(r) ==> 0 <= r < rooms.len(),
    decreases rooms.len() - from,
{
    if !(from < 0 || from >= rooms.len()) {
        if !rooms[from].inside(tile) {
            lemma_room_around_in_range(rooms, tile, from + 1);
        }
    }
}

/// A trap held against the players in turn takes alike worlds to alike
/// worlds.
pub proof fn lemma_trap_checked(
    w1: crate::map::TrapWorld,
    w2: crate::map::TrapWorld,
    rooms1: Seq<Room>,
    rooms2: Seq<Room>,
    kinds: Seq<crate::monsters::MonsterKind>,
    place: int,
    n: int,
)
    requires
        same_trap_world(w1, w2),
        same_rooms(rooms1, rooms2),
        0 <= place < w1.objects.len(),
    ensures
        same_trap_world(
            crate::map::trap_checked(w1, rooms1, kinds, place, n),
            crate::map::trap_checked(w2, rooms2, kinds, place, n),
        ),
        crate::map::trap_checked(w1, rooms1, kinds, place, n).objects.len() == w1.objects.len(),
        crate::map::trap_checked(w1, rooms1, kinds, place, n).players.len() == w1.players.len(),
    decreases n,
{
    if !(n <= 0 || n > w1.players.len()) {
        lemma_trap_checked(w1, w2, rooms1, rooms2, kinds, place, n - 1);
        let b1 = crate::map::trap_checked(w1, rooms1, kinds, place, n - 1);
        let b2 = crate::map::trap_checked(w2, rooms2, kinds, place, n - 1);
        assert(same_player(b1.players[n - 1], b2.players[n - 1]));
        assert(same_object(b1.objects[place], b2.objects[place]));
        lemma_sprung(b1, b2, rooms1, rooms2, kinds, place, n - 1);
    }
}

/// The places of the traps that have not gone off are places of tiles.
pub proof fn lemma_live_traps_in_range(objects: Seq<Object>, n: int)
    ensures
        forall|k: int|
            0 <= k < crate::map::live_traps(objects, n).len() ==> (
            #[trigger] crate::map::live_traps(objects, n)[k]) < objects.len(),
    decreases n,
{
    if !(n <= 0 || n > objects.len()) {
        lemma_live_traps_in_range(objects, n - 1);
        let before = crate::map::live_traps(objects, n - 1);
        let last = (n - 1) as usize;
        assert(last <= n - 1);
        assert forall|k: int|
            0 <= k < crate::map::live_traps(objects, n).len() implies (
        #[trigger] crate::map::live_traps(objects, n)[k]) < objects.len() by {
            if k < before.len() {
                assert(before[k] < objects.len());
            }
        }
    }
}

/// Alike tiles have the same traps that have not gone off.
pub proof fn lemma_live_traps(o1: Seq<Object>, o2: Seq<Object>, n: int)
    requires
        same_tiles(o1, o2),
    ensures
        crate::map::live_traps(o1, n) == crate::map::live_traps(o2, n),
    decreases n,
{
    if !(n <= 0 || n > o1.len()) {
        lemma_live_traps(o1, o2, n - 1);
        assert(same_object(o1[n - 1], o2[n - 1]));
    }
}

/// The traps, checked one after the other, take alike worlds to alike
/// worlds.
pub proof fn lemma_traps_checked(
    w1: crate::map::TrapWorld,
    w2: crate::map::TrapWorld,
    rooms1: Seq<Room>,
    rooms2: Seq<Room>,
    kinds: Seq<crate::monsters::MonsterKind>,
    places: Seq<usize>,
    n: int,
)
    requires
        same_trap_world(w1, w2),
        same_rooms(rooms1, rooms2),
        forall|k: int| 0 <= k < places.len() ==> (#[trigger] places[k]) < w1.objects.len(),
    ensures
        same_trap_world(
            crate::map::traps_checked(w1, rooms1, kinds, places, n),
            crate::map::traps_checked(w2, rooms2, kinds, places, n),
        ),
        crate::map::traps_checked(w1, rooms1, kinds, places, n).objects.len() == w1.objects.len(),
        crate::map::traps_checked(w1, rooms1, kinds, places, n).players.len() == w1.players.len(),
    decreases n,
{
    if !(n <= 0 || n > places.len()) {
        lemma_traps_checked(w1, w2, rooms1, rooms2, kinds, places, n - 1);
        let b1 = crate::map::traps_checked(w1, rooms1, kinds, places, n - 1);
        let b2 = crate::map::traps_checked(w2, rooms2, kinds, places, n - 1);
        lemma_trap_checked(
            b1,
            b2,
            rooms1,
            rooms2,
            kinds,
            places[n - 1] as int,
            b1.players.len() as int,
        );
    }
}

/// The traps take alike states to alike states.
pub proof fn lemma_traps_stepped(b1: GameState, b2: GameState, a1: GameState, a2: GameState)
    requires
        same_state(b1, b2),
        b1.wf(),
        traps_stepped(b1, a1),
        traps_stepped(b2, a2),
    ensures
        same_state(a1, a2),
{
    reveal(same_state);
    lemma_same_floor(b1, b2);
    let f1 = b1.floor();
    let f2 = b2.floor();
    let w1 = f1.trap_world(b1.players@, b1.rng.state);
    let w2 = f2.trap_world(b2.players@, b2.rng.state);
    let places = crate::map::live_traps(f1.floor.objects@, f1.floor.objects@.len() as int);
    lemma_live_traps(f1.floor.objects@, f2.floor.objects@, f1.floor.objects@.len() as int);
    lemma_live_traps_in_range(f1.floor.objects@, f1.floor.objects@.len() as int);
    lemma_traps_checked(
        w1,
        w2,
        f1.rooms@,
        f2.rooms@,
        f1.monster_types@,
        places,
        places.len() as int,
    );
    let r1 = crate::map::traps_checked(w1, f1.rooms@, f1.monster_types@, places, places.len() as int);
    let r2 = crate::map::traps_checked(w2, f2.rooms@, f2.monster_types@, places, places.len() as int);
    assert(a1.floor().trap_world(a1.players@, a1.rng.state) == r1);
    assert(a2.floor().trap_world(a2.players@, a2.rng.state) == r2);
    assert(same_trap_world(r1, r2));
    assert(same_level(a1.floor(), a2.floor()));
    lemma_same_but_floor(b1, b2, a1, a2);
}

} // verus!
