//! A game is a function of its seed: two games that start from the same
//! seed with the same party are alike.

use vstd::prelude::*;
use crate::generation::{
    inside_any, insides_rolled, is_bare, is_rolled_in, is_room_wall, laid_out, on_any_wall,
    room_sites, rooms_rolled, site_of, RoomSite,
};
use crate::init_game::GameState;
use crate::map::{assembled, tile_at, Floor, FloorInfo, Object, Room};
use crate::math::IVec2;
use crate::player::{newly_made, Player, PlayerClass};
use crate::replay::{
    same_level, same_object, same_player, same_room, same_rooms, same_state, same_tiles,
};

verus! {

/// Rooms on the same sites with the same doors are alike, and a tile is
/// inside, or on the wall of, the same of them.
pub proof fn lemma_rooms_on_sites(a: Seq<Room>, b: Seq<Room>)
    requires
        room_sites(a) == room_sites(b),
        forall|k: int| 0 <= k < a.len() ==> (#[trigger] a[k]).doors@ == b[k].doors@,
    ensures
        same_rooms(a, b),
        forall|p: IVec2| inside_any(a, p) == inside_any(b, p),
        forall|p: IVec2| on_any_wall(a, p) == on_any_wall(b, p),
{
    assert(a.len() == room_sites(a).len());
    assert(b.len() == room_sites(b).len());
    assert forall|k: int| 0 <= k < a.len() implies same_room(#[trigger] a[k], b[k]) by {
        assert(room_sites(a)[k] == site_of(a[k]));
        assert(room_sites(b)[k] == site_of(b[k]));
    }
    assert forall|p: IVec2| inside_any(a, p) == inside_any(b, p) by {
        if inside_any(a, p) {
            let k = choose|k: int| 0 <= k < a.len() && (#[trigger] a[k]).inside(p);
            assert(same_room(a[k], b[k]));
            assert(b[k].inside(p));
        }
        if inside_any(b, p) {
            let k = choose|k: int| 0 <= k < b.len() && (#[trigger] b[k]).inside(p);
            assert(same_room(a[k], b[k]));
            assert(a[k].inside(p));
        }
    }
    assert forall|p: IVec2| on_any_wall(a, p) == on_any_wall(b, p) by {
        if on_any_wall(a, p) {
            let k = choose|k: int| 0 <= k < a.len() && (#[trigger] a[k]).on_wall(p);
            assert(same_room(a[k], b[k]));
            assert(b[k].on_wall(p));
        }
        if on_any_wall(b, p) {
            let k = choose|k: int| 0 <= k < b.len() && (#[trigger] b[k]).on_wall(p);
            assert(same_room(a[k], b[k]));
            assert(a[k].on_wall(p));
        }
    }
}

/// Two tiles at one place that are laid out for alike rooms, with the same
/// hallway tiles around them and the same draws for the floors of the
/// rooms, are alike.
pub proof fn lemma_tile_laid_alike(
    f: Floor,
    g: Floor,
    a: Seq<Room>,
    b: Seq<Room>,
    kept_a: Seq<IVec2>,
    kept_b: Seq<IVec2>,
    state: u64,
    i: int,
)
    requires
        f.wf(),
        g.wf(),
        0 <= i < f.objects@.len(),
        room_sites(a) == room_sites(b),
        forall|k: int| 0 <= k < a.len() ==> (#[trigger] a[k]).doors@ == b[k].doors@,
        laid_out(f, a, kept_a),
        laid_out(g, b, kept_b),
        kept_a.contains(tile_at(i)) == kept_b.contains(tile_at(i)),
        insides_rolled(f.objects@, a, state),
        insides_rolled(g.objects@, b, state),
    ensures
        same_object(f.objects@[i], g.objects@[i]),
{
    lemma_rooms_on_sites(a, b);
    let p = tile_at(i);
    let o = f.objects@[i];
    let q = g.objects@[i];
    assert(o.pos == p && q.pos == p);
    if inside_any(a, p) {
        let k = choose|k: int| 0 <= k < a.len() && (#[trigger] a[k]).inside(p);
        assert(same_room(a[k], b[k]));
        assert(b[k].inside(p));
        assert(room_sites(a)[k] == site_of(a[k]));
        assert(room_sites(b)[k] == site_of(b[k]));
        assert(is_rolled_in(o, site_of(a[k]), rooms_rolled(a, state, k)));
        assert(is_rolled_in(q, site_of(b[k]), rooms_rolled(b, state, k)));
        assert(o.effects@ =~= q.effects@);
    } else if on_any_wall(a, p) {
        let k = choose|k: int| 0 <= k < a.len() && (#[trigger] a[k]).on_wall(p);
        assert(same_room(a[k], b[k]));
        assert(b[k].on_wall(p));
        assert(is_room_wall(o, a[k]));
        assert(is_room_wall(q, b[k]));
        assert(o.items@ =~= q.items@);
        assert(o.effects@ =~= q.effects@);
    } else {
        assert(is_bare(o) && is_bare(q));
        assert(o.items@ =~= q.items@);
        assert(o.effects@ =~= q.effects@);
    }
}

/// Two levels that are put together from the same sites and hallways have
/// rooms on the same sites with the same doors.
pub proof fn lemma_assembled_rooms(
    a: FloorInfo,
    b: FloorInfo,
    sites: Seq<RoomSite>,
    hallways: Seq<IVec2>,
    state: u64,
)
    requires
        assembled(a, sites, hallways, state),
        assembled(b, sites, hallways, state),
    ensures
        room_sites(a.rooms@) == room_sites(b.rooms@),
        a.rooms@.len() == b.rooms@.len(),
        forall|k: int| 0 <= k < a.rooms@.len() ==> (#[trigger] a.rooms@[k]).doors@ == b.rooms@[k].doors@,
{
    reveal(assembled);
    assert(a.rooms@.len() == room_sites(a.rooms@).len());
    assert(b.rooms@.len() == room_sites(b.rooms@).len());
    assert forall|k: int| 0 <= k < a.rooms@.len() implies (#[trigger] a.rooms@[k]).doors@
        == b.rooms@[k].doors@ by {
        assert(room_sites(a.rooms@)[k] == site_of(a.rooms@[k]));
        assert(room_sites(b.rooms@)[k] == site_of(b.rooms@[k]));
        assert(b.rooms@[k].doors@ == crate::generation::site_doors(
            site_of(b.rooms@[k]),
            hallways,
        ));
    }
}

/// Two levels that are put together from the same sites and hallways with
/// the same draws have alike tiles.
pub proof fn lemma_assembled_tiles(
    a: FloorInfo,
    b: FloorInfo,
    sites: Seq<RoomSite>,
    hallways: Seq<IVec2>,
    state: u64,
)
    requires
        a.floor.wf(),
        b.floor.wf(),
        assembled(a, sites, hallways, state),
        assembled(b, sites, hallways, state),
    ensures
        same_tiles(a.floor.objects@, b.floor.objects@),
{
    lemma_assembled_rooms(a, b, sites, hallways, state);
    lemma_rooms_on_sites(a.rooms@, b.rooms@);
    lemma_assembled_layout(a, sites, hallways, state);
    lemma_assembled_layout(b, sites, hallways, state);
    let kept_a = choose|kept: Seq<IVec2>|
        (forall|p: IVec2| kept.contains(p) <==> (hallways.contains(p) && !inside_any(a.rooms@, p)))
            && #[trigger] laid_out(a.floor, a.rooms@, kept);
    let kept_b = choose|kept: Seq<IVec2>|
        (forall|p: IVec2| kept.contains(p) <==> (hallways.contains(p) && !inside_any(b.rooms@, p)))
            && #[trigger] laid_out(b.floor, b.rooms@, kept);
    assert forall|i: int| 0 <= i < a.floor.objects@.len() implies same_object(
        #[trigger] a.floor.objects@[i],
        b.floor.objects@[i],
    ) by {
        let p = tile_at(i);
        assert(kept_a.contains(p) == kept_b.contains(p));
        lemma_tile_laid_alike(a.floor, b.floor, a.rooms@, b.rooms@, kept_a, kept_b, state, i);
    }
}

/// The tiles of a level that is put together are laid out for its rooms
/// and for the hallway tiles that are inside no room, and the tiles inside
/// the rooms are as they are drawn.
pub proof fn lemma_assembled_layout(
    info: FloorInfo,
    sites: Seq<RoomSite>,
    hallways: Seq<IVec2>,
    state: u64,
)
    requires
        assembled(info, sites, hallways, state),
    ensures
        exists|kept: Seq<IVec2>|
            (forall|p: IVec2|
                kept.contains(p) <==> (hallways.contains(p) && !inside_any(info.rooms@, p)))
                && #[trigger] laid_out(info.floor, info.rooms@, kept),
        insides_rolled(info.floor.objects@, info.rooms@, state),
{
    reveal(assembled);
}

/// Two levels that are put together from the same sites and hallways with
/// the same draws have the same way in, alike exits, the same kinds of
/// monsters and items, and monsters with the same views.
pub proof fn lemma_assembled_rest(
    a: FloorInfo,
    b: FloorInfo,
    sites: Seq<RoomSite>,
    hallways: Seq<IVec2>,
    state: u64,
)
    requires
        assembled(a, sites, hallways, state),
        assembled(b, sites, hallways, state),
    ensures
        a.spawn == b.spawn,
        a.monster_types@ == b.monster_types@,
        a.item_types@ == b.item_types@,
        crate::monsters::monster_views(a.monsters@) == crate::monsters::monster_views(b.monsters@),
        same_object(a.exit, b.exit),
{
    lemma_assembled_rooms(a, b, sites, hallways, state);
    reveal(assembled);
    assert(a.exit.items@ =~= b.exit.items@);
    assert(a.exit.effects@ =~= b.exit.effects@);
}

/// Two levels that are put together from the same sites and hallways with
/// the same draws are alike.
pub proof fn lemma_assembled_alike(
    a: FloorInfo,
    b: FloorInfo,
    sites: Seq<RoomSite>,
    hallways: Seq<IVec2>,
    state: u64,
)
    requires
        a.floor.wf(),
        b.floor.wf(),
        assembled(a, sites, hallways, state),
        assembled(b, sites, hallways, state),
    ensures
        same_level(a, b),
{
    lemma_assembled_rooms(a, b, sites, hallways, state);
    lemma_rooms_on_sites(a.rooms@, b.rooms@);
    lemma_assembled_tiles(a, b, sites, hallways, state);
    lemma_assembled_rest(a, b, sites, hallways, state);
}

/// Two players who start out alike are alike.
pub proof fn lemma_newly_made_alike(p: Player, q: Player, class: PlayerClass, pos: crate::math::Vec2)
    requires
        newly_made(p, class, pos),
        newly_made(q, class, pos),
    ensures
        same_player(p, q),
{
    assert(p.inventory.items@ =~= q.inventory.items@);
}

/// A game is a function of its seed: two games that start from the same
/// seed with as many players of the same class are alike.
pub proof fn lemma_started_alike(
    a: GameState,
    b: GameState,
    class: PlayerClass,
    num_players: usize,
    seed: u64,
)
    requires
        a.started(class, num_players, seed),
        b.started(class, num_players, seed),
    ensures
        same_state(a, b),
{
    reveal(GameState::started);
    reveal(same_state);
    let begun = crate::rng::seeded(seed);
    assert forall|k: int| 0 <= k < a.map.rooms@.len() implies same_level(
        #[trigger] a.map.rooms@[k],
        b.map.rooms@[k],
    ) by {
        lemma_assembled_alike(
            a.map.rooms@[k],
            b.map.rooms@[k],
            crate::generation::planned_sites(crate::map::floor_start(begun, k)),
            crate::generation::planned_hallways(crate::map::floor_start(begun, k)),
            crate::generation::plan_end(crate::map::floor_start(begun, k)),
        );
    }
    assert(same_level(a.map.rooms@[0], b.map.rooms@[0]));
    assert forall|i: int| 0 <= i < a.players@.len() implies same_player(
        #[trigger] a.players@[i],
        b.players@[i],
    ) by {
        lemma_newly_made_alike(a.players@[i], b.players@[i], class, a.map.rooms@[0].spawn);
    }
    assert(a.attacks@ =~= b.attacks@);
}

} // verus!
