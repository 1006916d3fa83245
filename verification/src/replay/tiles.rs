//! Alike floors block, show and lead the same.

use vstd::prelude::*;
use crate::map::Floor;
use crate::replay::{same_object, same_tiles};

verus! {

/// Alike floors have the same effects on each tile.
pub proof fn lemma_effects_at(f1: Floor, f2: Floor, tile: crate::math::IVec2)
    requires
        same_tiles(f1.objects@, f2.objects@),
        f1.wf(),
    ensures
        crate::map::effects_at(&f1, tile) == crate::map::effects_at(&f2, tile),
{
    if crate::map::in_bounds(tile) {
        assert(same_object(
            f1.objects@[crate::map::index_of(tile)],
            f2.objects@[crate::map::index_of(tile)],
        ));
    }
}

/// The same shapes are blocked on alike floors.
pub proof fn lemma_blocked(f1: Floor, f2: Floor)
    requires
        same_tiles(f1.objects@, f2.objects@),
    ensures
        forall|p: crate::math::Polygon, dx: int, dy: int|
            #[trigger] f1.blocked(p, dx, dy) == f2.blocked(p, dx, dy),
{
    assert forall|p: crate::math::Polygon, dx: int, dy: int|
        #[trigger] f1.blocked(p, dx, dy) == f2.blocked(p, dx, dy) by {
        if f1.blocked(p, dx, dy) {
            let i = choose|i: int| 0 <= i < f1.objects@.len() && #[trigger] f1.blocks(i, p, dx, dy);
            assert(same_object(f1.objects@[i], f2.objects@[i]));
            assert(f2.blocks(i, p, dx, dy));
        }
        if f2.blocked(p, dx, dy) {
            let i = choose|i: int| 0 <= i < f2.objects@.len() && #[trigger] f2.blocks(i, p, dx, dy);
            assert(same_object(f1.objects@[i], f2.objects@[i]));
            assert(f1.blocks(i, p, dx, dy));
        }
    }
}

/// The same tiles are seen along a ray on alike floors.
pub proof fn lemma_ray_sees(f1: Floor, f2: Floor, ray: Seq<crate::math::IVec2>)
    requires
        same_tiles(f1.objects@, f2.objects@),
        f1.wf(),
    ensures
        f1.ray_sees(ray) == f2.ray_sees(ray),
    decreases ray.len(),
{
    if ray.len() != 0 {
        lemma_ray_sees(f1, f2, ray.drop_first());
        if crate::map::in_bounds(ray[0]) {
            assert(same_object(
                f1.objects@[crate::map::index_of(ray[0])],
                f2.objects@[crate::map::index_of(ray[0])],
            ));
        }
    }
}

/// The same tiles are seen along a bundle of rays on alike floors.
pub proof fn lemma_rays_see(
    f1: Floor,
    f2: Floor,
    center: crate::math::IVec2,
    edges: Seq<crate::math::IVec2>,
)
    requires
        same_tiles(f1.objects@, f2.objects@),
        f1.wf(),
    ensures
        f1.rays_see(center, edges) == f2.rays_see(center, edges),
    decreases edges.len(),
{
    if edges.len() != 0 {
        lemma_ray_sees(f1, f2, crate::math::line(center, edges[0]));
        lemma_rays_see(f1, f2, center, edges.drop_first());
    }
}

/// What can be said of alike floors at once: the same shapes are
/// blocked, the same tiles are seen from every tile, the same tiles are
/// passable, and the same ways are found.
pub proof fn lemma_floors(f1: Floor, f2: Floor)
    requires
        same_tiles(f1.objects@, f2.objects@),
        f1.wf(),
    ensures
        f1.objects@.len() == f2.objects@.len(),
        forall|p: crate::math::Polygon, dx: int, dy: int|
            #[trigger] f1.blocked(p, dx, dy) == f2.blocked(p, dx, dy),
        forall|center: crate::math::IVec2, radius: int|
            #[trigger] f1.visible_from(center, radius) == f2.visible_from(center, radius),
        forall|start: crate::math::IVec2, goal: crate::math::IVec2, only_visible: bool, doors: bool|
            #[trigger] crate::map::find_path_spec(&f1, start, goal, only_visible, doors)
                == crate::map::find_path_spec(&f2, start, goal, only_visible, doors),
        forall|tile: crate::math::IVec2|
            crate::map::in_bounds(tile) ==> same_object(#[trigger] f1.at(tile), f2.at(tile)),
{
    lemma_blocked(f1, f2);
    assert forall|center: crate::math::IVec2, radius: int|
        #[trigger] f1.visible_from(center, radius) == f2.visible_from(center, radius) by {
        lemma_rays_see(f1, f2, center, crate::math::circumference(center, radius));
    }
    assert forall|tile: crate::math::IVec2| crate::map::in_bounds(tile) implies same_object(
        #[trigger] f1.at(tile),
        f2.at(tile),
    ) by {
        assert(same_object(
            f1.objects@[crate::map::index_of(tile)],
            f2.objects@[crate::map::index_of(tile)],
        ));
    }
    assert forall|visible: Option<Seq<usize>>, doors: bool|
        #[trigger] f1.passable_grid(visible, doors) == f2.passable_grid(visible, doors) by {
        assert forall|i: int| 0 <= i < crate::map::MAP_WIDTH_TILES * crate::map::MAP_HEIGHT_TILES implies (
        #[trigger] f1.passable_grid(visible, doors)[i]) == f2.passable_grid(visible, doors)[i] by {
            let pos = crate::map::tile_at(i);
            if crate::map::in_bounds(pos) {
                assert(same_object(f1.at(pos), f2.at(pos)));
            }
        }
        assert(f1.passable_grid(visible, doors) =~= f2.passable_grid(visible, doors));
    }
    assert forall|start: crate::math::IVec2, goal: crate::math::IVec2, only_visible: bool, doors: bool|
        #[trigger] crate::map::find_path_spec(&f1, start, goal, only_visible, doors)
            == crate::map::find_path_spec(&f2, start, goal, only_visible, doors) by {
        let sight = crate::map::sight(&f1, start, only_visible);
        assert(sight == crate::map::sight(&f2, start, only_visible));
        assert(f1.passable_grid(sight, doors) == f2.passable_grid(sight, doors));
    }
}

} // verus!
