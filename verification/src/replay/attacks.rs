//! The frame of the attacks takes alike states to alike states.

use vstd::prelude::*;
use crate::attacks::AttackObj;
use crate::init_game::{attacks_stepped, GameState};
use crate::map::{Floor, FloorInfo};
use crate::math::AsPolygon;
use crate::monsters::{monster_views, MonsterView};
use crate::player::Player;
use crate::replay::{
    lemma_same_but_floor, lemma_same_floor, same_level, same_object, same_player, same_players,
    same_state, same_tiles,
};
use crate::replay::players::{lemma_damaged_player, lemma_first_touched};
use crate::replay::tiles::{lemma_blocked, lemma_floors};

verus! {

/// A hit does the same to a monster on alike floors.
pub proof fn lemma_monster_damaged(
    m: MonsterView,
    damage: u16,
    direction: crate::math::Angle,
    player: usize,
    f1: Floor,
    f2: Floor,
)
    requires
        same_tiles(f1.objects@, f2.objects@),
    ensures
        crate::monsters::monster_damaged(m, damage, direction, player, &f1)
            == crate::monsters::monster_damaged(m, damage, direction, player, &f2),
{
    reveal(crate::monsters::small_rat::rat_damaged);
    reveal(crate::monsters::slime::slime_damaged);
    lemma_blocked(f1, f2);
}

/// A hit on one monster leaves the same monsters on alike floors.
pub proof fn lemma_with_hit(
    monsters: Seq<MonsterView>,
    k: int,
    damage: u16,
    from: crate::math::Vec2,
    player: usize,
    f1: Floor,
    f2: Floor,
)
    requires
        same_tiles(f1.objects@, f2.objects@),
    ensures
        crate::attacks::with_hit(monsters, k, damage, from, player, &f1)
            == crate::attacks::with_hit(monsters, k, damage, from, player, &f2),
{
    lemma_monster_damaged(
        monsters[k],
        damage,
        crate::monsters::angle_between(crate::monsters::monster_pos(monsters[k]), from),
        player,
        f1,
        f2,
    );
}

/// Hits on the monsters that a shape touches leave the same monsters on
/// alike floors.
pub proof fn lemma_with_hits(
    monsters: Seq<MonsterView>,
    poly: crate::math::Polygon,
    damage: u16,
    from: crate::math::Vec2,
    player: usize,
    f1: Floor,
    f2: Floor,
    limit: int,
)
    requires
        same_tiles(f1.objects@, f2.objects@),
    ensures
        crate::attacks::with_hits(monsters, poly, damage, from, player, &f1, limit)
            == crate::attacks::with_hits(monsters, poly, damage, from, player, &f2, limit),
{
    let h1 = crate::attacks::with_hits(monsters, poly, damage, from, player, &f1, limit);
    let h2 = crate::attacks::with_hits(monsters, poly, damage, from, player, &f2, limit);
    assert forall|k: int| 0 <= k < h1.len() implies h1[k] == h2[k] by {
        lemma_monster_damaged(
            monsters[k],
            damage,
            crate::monsters::angle_between(crate::monsters::monster_pos(monsters[k]), from),
            player,
            f1,
            f2,
        );
    }
    assert(h1 =~= h2);
}

/// Levels that are as alike levels are but for their monsters, and have
/// monsters with the same views, are alike.
pub proof fn lemma_level_but_monsters(f1: FloorInfo, f2: FloorInfo, g1: FloorInfo, g2: FloorInfo)
    requires
        same_level(f1, f2),
        f1.same_but_monsters(g1),
        f2.same_but_monsters(g2),
        monster_views(g1.monsters@) == monster_views(g2.monsters@),
    ensures
        same_level(g1, g2),
{
}

/// One frame of a stab takes alike levels to alike levels, and the stab
/// to the same stab.
pub proof fn lemma_stab_updated(
    obj: crate::attacks::Stab,
    n1: crate::attacks::Stab,
    n2: crate::attacks::Stab,
    f1: FloorInfo,
    f2: FloorInfo,
    g1: FloorInfo,
    g2: FloorInfo,
    d1: bool,
    d2: bool,
)
    requires
        same_level(f1, f2),
        obj.updated(n1, f1, g1, d1),
        obj.updated(n2, f2, g2, d2),
    ensures
        n1 == n2,
        d1 == d2,
        same_level(g1, g2),
{
    let monsters = monster_views(f1.monsters@);
    lemma_blocked(f1.floor, f2.floor);
    match obj.victim(monsters) {
        Some(k) => {
            lemma_with_hit(
                monsters,
                k,
                crate::attacks::STAB_DAMAGE,
                obj.stepped().pos,
                obj.player_index,
                f1.floor,
                f2.floor,
            );
        },
        None => {},
    }
    lemma_level_but_monsters(f1, f2, g1, g2);
}

/// One frame of a slash takes alike levels and players to alike levels,
/// and the slash to the same slash.
pub proof fn lemma_slash_updated(
    obj: crate::attacks::Slash,
    n1: crate::attacks::Slash,
    n2: crate::attacks::Slash,
    f1: FloorInfo,
    f2: FloorInfo,
    g1: FloorInfo,
    g2: FloorInfo,
    p1: Seq<Player>,
    p2: Seq<Player>,
    d1: bool,
    d2: bool,
)
    requires
        same_level(f1, f2),
        same_players(p1, p2),
        obj.updated(n1, f1, g1, p1, d1),
        obj.updated(n2, f2, g2, p2, d2),
    ensures
        n1 == n2,
        d1 == d2,
        same_level(g1, g2),
{
    lemma_blocked(f1.floor, f2.floor);
    if !obj.spent(p1) {
        assert(same_player(p1[obj.player_index as int], p2[obj.player_index as int]));
        let blade = obj.blade(p1);
        assert(blade == obj.blade(p2));
        lemma_with_hits(
            monster_views(f1.monsters@),
            blade.polygon(),
            crate::attacks::SLASH_DAMAGE,
            blade.pos,
            obj.player_index,
            f1.floor,
            f2.floor,
            obj.hits_left(),
        );
        lemma_level_but_monsters(f1, f2, g1, g2);
    }
}

/// One frame of a missile takes alike levels to alike levels, and the
/// missile to the same missile.
pub proof fn lemma_missile_updated(
    obj: crate::attacks::MagicMissile,
    n1: crate::attacks::MagicMissile,
    n2: crate::attacks::MagicMissile,
    f1: FloorInfo,
    f2: FloorInfo,
    g1: FloorInfo,
    g2: FloorInfo,
    d1: bool,
    d2: bool,
)
    requires
        same_level(f1, f2),
        obj.updated(n1, f1, g1, d1),
        obj.updated(n2, f2, g2, d2),
    ensures
        n1 == n2,
        d1 == d2,
        same_level(g1, g2),
{
    lemma_blocked(f1.floor, f2.floor);
    let monsters = monster_views(f1.monsters@);
    let turned = obj.off_walls(&f1.floor);
    assert(turned == obj.off_walls(&f2.floor));
    let victim = crate::attacks::first_hit(monsters, turned.polygon(), 0);
    assert(obj.flown(&f1.floor, victim) == obj.flown(&f2.floor, victim));
    match victim {
        Some(k) => {
            lemma_with_hit(
                monsters,
                k,
                crate::attacks::missile_damage(turned.bounces) as u16,
                obj.pos,
                obj.player_index,
                f1.floor,
                f2.floor,
            );
        },
        None => {},
    }
    lemma_level_but_monsters(f1, f2, g1, g2);
}

/// One frame of a blinding light takes alike levels to alike levels, and
/// the light to the same light.
pub proof fn lemma_light_updated(
    obj: crate::attacks::BlindingLight,
    n1: crate::attacks::BlindingLight,
    n2: crate::attacks::BlindingLight,
    f1: FloorInfo,
    f2: FloorInfo,
    g1: FloorInfo,
    g2: FloorInfo,
    d1: bool,
    d2: bool,
)
    requires
        same_level(f1, f2),
        obj.updated(n1, f1, g1, d1),
        obj.updated(n2, f2, g2, d2),
    ensures
        n1 == n2,
        d1 == d2,
        same_level(g1, g2),
{
    lemma_level_but_monsters(f1, f2, g1, g2);
}

/// One frame of a slimeball takes alike players on alike floors to alike
/// players, and the slimeball to the same slimeball.
pub proof fn lemma_slimeball_updated(
    obj: crate::attacks::Slimeball,
    n1: crate::attacks::Slimeball,
    n2: crate::attacks::Slimeball,
    f1: Floor,
    f2: Floor,
    p1: Seq<Player>,
    p2: Seq<Player>,
    q1: Seq<Player>,
    q2: Seq<Player>,
    d1: bool,
    d2: bool,
)
    requires
        same_tiles(f1.objects@, f2.objects@),
        same_players(p1, p2),
        obj.updated(n1, &f1, p1, q1, d1),
        obj.updated(n2, &f2, p2, q2, d2),
    ensures
        n1 == n2,
        d1 == d2,
        same_players(q1, q2),
{
    lemma_blocked(f1, f2);
    lemma_first_touched(p1, p2, obj.stepped().polygon(), 0);
    match obj.victim(&f1, p1) {
        Some(k) => {
            assert(same_player(p1[k], p2[k]));
            let direction = crate::monsters::angle_between(p1[k].pos, obj.stepped().pos);
            lemma_damaged_player(
                p1[k],
                p2[k],
                crate::attacks::SLIMEBALL_DAMAGE,
                direction,
                f1,
                f2,
            );
            assert forall|i: int| 0 <= i < q1.len() implies same_player(#[trigger] q1[i], q2[i]) by {
                assert(same_player(p1[i], p2[i]));
            }
        },
        None => {},
    }
}

/// The same tile is the nearest that can hold a knife on alike floors, and
/// it is on the map.
pub proof fn lemma_nearest_open(
    f1: Floor,
    f2: Floor,
    center: crate::math::IVec2,
    tiles: Seq<crate::math::IVec2>,
    n: int,
)
    requires
        same_tiles(f1.objects@, f2.objects@),
        f1.wf(),
    ensures
        crate::attacks::nearest_open(&f1, center, tiles, n) == crate::attacks::nearest_open(
            &f2,
            center,
            tiles,
            n,
        ),
        crate::attacks::nearest_open(&f1, center, tiles, n) matches Some(pos)
            ==> crate::map::in_bounds(pos),
    decreases n,
{
    if !(n <= 0 || n > tiles.len()) {
        lemma_nearest_open(f1, f2, center, tiles, n - 1);
        lemma_floors(f1, f2);
    }
}

/// One frame of a thrown knife takes alike levels to alike levels, and
/// the knife to the same knife.
pub proof fn lemma_knife_updated(
    obj: crate::attacks::ThrownKnife,
    n1: crate::attacks::ThrownKnife,
    n2: crate::attacks::ThrownKnife,
    f1: FloorInfo,
    f2: FloorInfo,
    g1: FloorInfo,
    g2: FloorInfo,
    state: u64,
    s1: u64,
    s2: u64,
    d1: bool,
    d2: bool,
)
    requires
        same_level(f1, f2),
        f1.floor.wf(),
        obj.updated(n1, f1, g1, state, s1, d1),
        obj.updated(n2, f2, g2, state, s2, d2),
    ensures
        n1 == n2,
        d1 == d2,
        s1 == s2,
        same_level(g1, g2),
{
    lemma_floors(f1.floor, f2.floor);
    crate::math::Angle::lemma_from_parts(n1.rotation_angle);
    crate::math::Angle::lemma_from_parts(n2.rotation_angle);
    assert(n1.rotation_angle == n2.rotation_angle);
    assert(n1 == n2);
    let monsters = monster_views(f1.monsters@);
    let victim = crate::attacks::first_hit(monsters, n1.polygon(), 0);
    match victim {
        Some(k) => {
            lemma_with_hit(
                monsters,
                k,
                crate::attacks::KNIFE_DAMAGE,
                n1.pos,
                obj.player_index,
                f1.floor,
                f2.floor,
            );
        },
        None => {},
    }
    let center = crate::map::tile_of(n1.polygon().center);
    lemma_nearest_open(f1.floor, f2.floor, center, crate::attacks::knife_drop_tiles(center), 9);
    assert(same_tiles(g1.floor.objects@, g2.floor.objects@)) by {
        if d1 && crate::rng::scale_to_range(
            0,
            crate::attacks::KNIFE_BREAK_ROLL as int,
            crate::rng::output(state),
        ) != crate::attacks::KNIFE_BREAK_ROLL {
            match crate::attacks::nearest_open(
                &f1.floor,
                center,
                crate::attacks::knife_drop_tiles(center),
                9,
            ) {
                Some(pos) => {
                    let at = crate::map::index_of(pos);
                    assert(same_object(f1.floor.objects@[at], f2.floor.objects@[at]));
                    assert forall|i: int| 0 <= i < g1.floor.objects@.len() implies same_object(
                        #[trigger] g1.floor.objects@[i],
                        g2.floor.objects@[i],
                    ) by {
                        assert(same_object(f1.floor.objects@[i], f2.floor.objects@[i]));
                    }
                },
                None => {},
            }
        }
    }
}

/// Whether two worlds of attacks are alike.
pub open spec fn same_world(a: crate::attacks::World, b: crate::attacks::World) -> bool {
    &&& same_level(a.floor, b.floor)
    &&& same_players(a.players, b.players)
    &&& a.state == b.state
}

/// One frame of an attack takes alike worlds to alike worlds, and the
/// attack to the same attack.
pub proof fn lemma_attack_updated(
    obj: AttackObj,
    n1: AttackObj,
    n2: AttackObj,
    b1: crate::attacks::World,
    b2: crate::attacks::World,
    a1: crate::attacks::World,
    a2: crate::attacks::World,
    d1: bool,
    d2: bool,
)
    requires
        same_world(b1, b2),
        b1.floor.floor.wf(),
        obj.updated(n1, b1, a1, d1),
        obj.updated(n2, b2, a2, d2),
    ensures
        n1 == n2,
        d1 == d2,
        same_world(a1, a2),
{
    match obj {
        AttackObj::BlindingLight(o) => {
            lemma_light_updated(o, n1->BlindingLight_0, n2->BlindingLight_0, b1.floor, b2.floor, a1.floor, a2.floor, d1, d2);
        },
        AttackObj::MagicMissile(o) => {
            lemma_missile_updated(o, n1->MagicMissile_0, n2->MagicMissile_0, b1.floor, b2.floor, a1.floor, a2.floor, d1, d2);
        },
        AttackObj::Slash(o) => {
            lemma_slash_updated(o, n1->Slash_0, n2->Slash_0, b1.floor, b2.floor, a1.floor, a2.floor, b1.players, b2.players, d1, d2);
        },
        AttackObj::Slimeball(o) => {
            lemma_slimeball_updated(o, n1->Slimeball_0, n2->Slimeball_0, b1.floor.floor, b2.floor.floor, b1.players, b2.players, a1.players, a2.players, d1, d2);
        },
        AttackObj::Stab(o) => {
            lemma_stab_updated(o, n1->Stab_0, n2->Stab_0, b1.floor, b2.floor, a1.floor, a2.floor, d1, d2);
        },
        AttackObj::ThrowingKnife(o) => {
            lemma_knife_updated(o, n1->ThrowingKnife_0, n2->ThrowingKnife_0, b1.floor, b2.floor, a1.floor, a2.floor, b1.state, a1.state, a2.state, d1, d2);
        },
    }
}

/// One frame of an attack leaves the tiles well formed.
pub proof fn lemma_attack_keeps_tiles(
    obj: AttackObj,
    next: AttackObj,
    before: crate::attacks::World,
    after: crate::attacks::World,
    done: bool,
)
    requires
        before.floor.floor.wf(),
        obj.updated(next, before, after, done),
    ensures
        after.floor.floor.wf(),
{
    match obj {
        AttackObj::ThrowingKnife(o) => {
            let n = next->ThrowingKnife_0;
            let center = crate::map::tile_of(n.polygon().center);
            lemma_nearest_open(
                before.floor.floor,
                before.floor.floor,
                center,
                crate::attacks::knife_drop_tiles(center),
                9,
            );
            match crate::attacks::nearest_open(
                &before.floor.floor,
                center,
                crate::attacks::knife_drop_tiles(center),
                9,
            ) {
                Some(pos) => {
                    crate::map::lemma_index_round_trip(pos);
                },
                None => {},
            }
        },
        _ => {},
    }
}

/// Whether two worlds of attacks are alike and have well formed tiles.
#[verifier::opaque]
pub open spec fn worlds_alike(a: crate::attacks::World, b: crate::attacks::World) -> bool {
    same_world(a, b) && a.floor.floor.wf()
}

/// Whether one frame takes the attack at place `k` from the world at place
/// `k` of `trace` to the next, with the result at place `k`.
#[verifier::opaque]
pub open spec fn attack_led(
    attacks: Seq<AttackObj>,
    results: Seq<(AttackObj, bool)>,
    trace: Seq<crate::attacks::World>,
    k: int,
) -> bool {
    attacks[k].updated(results[k].0, trace[k], trace[k + 1], results[k].1)
}

/// One frame of an attack takes alike worlds to alike worlds, with the
/// same result.
pub proof fn lemma_attack_led(
    attacks: Seq<AttackObj>,
    r1: Seq<(AttackObj, bool)>,
    r2: Seq<(AttackObj, bool)>,
    t1: Seq<crate::attacks::World>,
    t2: Seq<crate::attacks::World>,
    k: int,
)
    requires
        worlds_alike(t1[k], t2[k]),
        attack_led(attacks, r1, t1, k),
        attack_led(attacks, r2, t2, k),
    ensures
        worlds_alike(t1[k + 1], t2[k + 1]),
        r1[k] == r2[k],
{
    reveal(worlds_alike);
    reveal(attack_led);
    lemma_attack_updated(
        attacks[k],
        r1[k].0,
        r2[k].0,
        t1[k],
        t2[k],
        t1[k + 1],
        t2[k + 1],
        r1[k].1,
        r2[k].1,
    );
    lemma_attack_keeps_tiles(attacks[k], r1[k].0, t1[k], t1[k + 1], r1[k].1);
}

/// The frames of the attacks, taken one after the other, take alike worlds
/// to alike worlds at every step, and every attack to the same attack.
pub proof fn lemma_attacks_ran(
    attacks: Seq<AttackObj>,
    r1: Seq<(AttackObj, bool)>,
    r2: Seq<(AttackObj, bool)>,
    t1: Seq<crate::attacks::World>,
    t2: Seq<crate::attacks::World>,
    n: int,
    k: int,
)
    requires
        0 <= n <= attacks.len(),
        forall|j: int| 0 <= j < n ==> #[trigger] attack_led(attacks, r1, t1, j),
        forall|j: int| 0 <= j < n ==> #[trigger] attack_led(attacks, r2, t2, j),
        worlds_alike(t1[0], t2[0]),
        0 <= k <= n,
    ensures
        worlds_alike(t1[k], t2[k]),
        forall|j: int| 0 <= j < k ==> r1[j] == r2[j],
    decreases k,
{
    if k > 0 {
        lemma_attacks_ran(attacks, r1, r2, t1, t2, n, k - 1);
        assert(attack_led(attacks, r1, t1, k - 1));
        assert(attack_led(attacks, r2, t2, k - 1));
        lemma_attack_led(attacks, r1, r2, t1, t2, k - 1);
    }
}

/// Every step of a run of attacks is the frame of one attack.
pub proof fn lemma_attacks_led(
    attacks: Seq<AttackObj>,
    results: Seq<(AttackObj, bool)>,
    trace: Seq<crate::attacks::World>,
    n: int,
)
    requires
        crate::attacks::attacks_ran(attacks, results, trace, n),
    ensures
        forall|j: int| 0 <= j < n ==> #[trigger] attack_led(attacks, results, trace, j),
{
    assert forall|j: int| 0 <= j < n implies #[trigger] attack_led(attacks, results, trace, j) by {
        let attack = attacks[j];
        reveal(attack_led);
    }
}

/// The frame of the attacks takes alike states to alike states.
pub proof fn lemma_attacks_stepped(b1: GameState, b2: GameState, a1: GameState, a2: GameState)
    requires
        same_state(b1, b2),
        b1.wf(),
        b1.same_frame(a1),
        b2.same_frame(a2),
        attacks_stepped(b1, a1),
        attacks_stepped(b2, a2),
    ensures
        same_state(a1, a2),
{
    reveal(same_state);
    lemma_same_floor(b1, b2);
    let n = b1.attacks@.len() as int;
    let (r1, t1) = choose|results: Seq<(AttackObj, bool)>, trace: Seq<crate::attacks::World>|
        #![auto]
        crate::attacks::attacks_ran(b1.attacks@, results, trace, b1.attacks@.len() as int)
            && trace[0] == (crate::attacks::World {
            floor: b1.floor(),
            players: b1.players@,
            state: b1.rng.state,
        }) && trace[b1.attacks@.len() as int] == (crate::attacks::World {
            floor: a1.floor(),
            players: a1.players@,
            state: a1.rng.state,
        }) && a1.attacks@ == crate::attacks::survivors(results);
    let (r2, t2) = choose|results: Seq<(AttackObj, bool)>, trace: Seq<crate::attacks::World>|
        #![auto]
        crate::attacks::attacks_ran(b2.attacks@, results, trace, b2.attacks@.len() as int)
            && trace[0] == (crate::attacks::World {
            floor: b2.floor(),
            players: b2.players@,
            state: b2.rng.state,
        }) && trace[b2.attacks@.len() as int] == (crate::attacks::World {
            floor: a2.floor(),
            players: a2.players@,
            state: a2.rng.state,
        }) && a2.attacks@ == crate::attacks::survivors(results);
    lemma_attacks_led(b1.attacks@, r1, t1, n);
    lemma_attacks_led(b1.attacks@, r2, t2, n);
    assert(worlds_alike(t1[0], t2[0])) by {
        reveal(worlds_alike);
    }
    lemma_attacks_ran(b1.attacks@, r1, r2, t1, t2, n, n);
    assert(r1 =~= r2);
    assert(same_world(t1[n], t2[n])) by {
        reveal(worlds_alike);
    }
    lemma_same_but_floor(b1, b2, a1, a2);
}

} // verus!
