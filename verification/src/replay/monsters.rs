//! The frame of the monsters takes alike states to alike states.

use vstd::prelude::*;
use crate::attacks::AttackObj;
use crate::init_game::{monsters_stepped, GameState};
use crate::map::Floor;
use crate::math::AsPolygon;
use crate::monsters::{monster_views, MonsterView};
use crate::player::Player;
use crate::replay::{
    lemma_monster_views, lemma_same_but_floor, lemma_same_floor, same_level, same_object,
    same_player, same_players, same_state, same_tiles,
};
use crate::replay::players::{
    lemma_awarded, lemma_damaged_player, lemma_first_seen, lemma_nearest_player,
    lemma_target_polygon,
};
use crate::replay::tiles::lemma_floors;

verus! {

/// A rat takes the same step along its path among alike players on alike
/// floors.
pub proof fn lemma_rat_follow(
    rat: crate::monsters::small_rat::SmallRatView,
    p1: Seq<Player>,
    p2: Seq<Player>,
    f1: Floor,
    f2: Floor,
    speed: int,
)
    requires
        same_players(p1, p2),
        same_tiles(f1.objects@, f2.objects@),
        f1.wf(),
    ensures
        crate::monsters::small_rat::rat_follow(rat, p1, &f1, speed)
            == crate::monsters::small_rat::rat_follow(rat, p2, &f2, speed),
{
    reveal(crate::monsters::small_rat::rat_follow);
    lemma_floors(f1, f2);
    if rat.current_target is Some {
        lemma_target_polygon(rat.current_target->0, p1, p2);
    }
}

/// A rat plans and steps the same among alike players on alike floors.
pub proof fn lemma_rat_step(
    rat: crate::monsters::small_rat::SmallRatView,
    p1: Seq<Player>,
    p2: Seq<Player>,
    f1: Floor,
    f2: Floor,
    speed: int,
    only_visible: bool,
)
    requires
        same_players(p1, p2),
        same_tiles(f1.objects@, f2.objects@),
        f1.wf(),
    ensures
        crate::monsters::small_rat::rat_step(rat, p1, &f1, speed, only_visible)
            == crate::monsters::small_rat::rat_step(rat, p2, &f2, speed, only_visible),
{
    reveal(crate::monsters::small_rat::rat_step);
    lemma_floors(f1, f2);
    lemma_rat_follow(rat, p1, p2, f1, f2, speed);
    if rat.current_target is Some {
        lemma_target_polygon(rat.current_target->0, p1, p2);
        match crate::monsters::small_rat::target_polygon(rat.current_target->0, p1) {
            Some(goal) => {
                match crate::map::find_path_spec(
                    &f1,
                    crate::map::tile_of(crate::monsters::small_rat::rat_polygon(rat.pos).center),
                    crate::map::tile_of(goal.center),
                    only_visible,
                    true,
                ) {
                    Some(path) => {
                        lemma_rat_follow(
                            crate::monsters::small_rat::SmallRatView {
                                current_path: Some((path, 0usize)),
                                ..rat
                            },
                            p1,
                            p2,
                            f1,
                            f2,
                            speed,
                        );
                    },
                    None => {},
                }
            },
            None => {},
        }
    }
}

/// A passive rat does the same among alike players on alike floors.
pub proof fn lemma_rat_passive(
    rat: crate::monsters::small_rat::SmallRatView,
    p1: Seq<Player>,
    p2: Seq<Player>,
    f1: Floor,
    f2: Floor,
    state: u64,
)
    requires
        same_players(p1, p2),
        same_tiles(f1.objects@, f2.objects@),
        f1.wf(),
    ensures
        crate::monsters::small_rat::rat_passive(rat, p1, &f1, state)
            == crate::monsters::small_rat::rat_passive(rat, p2, &f2, state),
{
    reveal(crate::monsters::small_rat::rat_passive);
    lemma_floors(f1, f2);
    let waited = crate::monsters::small_rat::SmallRatView {
        time_til_move: crate::player::sub_u16(rat.time_til_move, 1),
        ..rat
    };
    if waited.time_til_move == 0 {
        let visible = f1.visible_from(
            crate::map::tile_of(crate::monsters::small_rat::rat_polygon(rat.pos).center),
            crate::monsters::small_rat::SIGHT as int,
        );
        let aimed = if waited.current_target is None {
            crate::monsters::small_rat::SmallRatView {
                current_target: Some(
                    crate::monsters::small_rat::wander_target(visible, rat.pos, state),
                ),
                current_path: None,
                ..waited
            }
        } else {
            waited
        };
        lemma_rat_step(
            aimed,
            p1,
            p2,
            f1,
            f2,
            crate::monsters::small_rat::WANDER_SPEED as int,
            true,
        );
        lemma_first_seen(p1, p2, visible, true, 0);
    }
}

/// A hunting rat picks the same target among alike players on alike
/// floors.
pub proof fn lemma_hunt_target(
    rat: crate::monsters::small_rat::SmallRatView,
    p1: Seq<Player>,
    p2: Seq<Player>,
    f1: Floor,
    f2: Floor,
)
    requires
        same_players(p1, p2),
        same_tiles(f1.objects@, f2.objects@),
        f1.wf(),
    ensures
        crate::monsters::small_rat::hunt_target(rat, p1, &f1)
            == crate::monsters::small_rat::hunt_target(rat, p2, &f2),
{
    lemma_floors(f1, f2);
    let visible = f1.visible_from(
        crate::map::tile_of(crate::monsters::small_rat::rat_polygon(rat.pos).center),
        crate::monsters::small_rat::SIGHT as int,
    );
    lemma_first_seen(p1, p2, visible, false, 0);
}

/// An attacking rat does the same among alike players on alike floors.
pub proof fn lemma_rat_attacking(
    rat: crate::monsters::small_rat::SmallRatView,
    p1: Seq<Player>,
    p2: Seq<Player>,
    f1: Floor,
    f2: Floor,
)
    requires
        same_players(p1, p2),
        same_tiles(f1.objects@, f2.objects@),
        f1.wf(),
    ensures
        crate::monsters::small_rat::rat_attacking(rat, p1, &f1)
            == crate::monsters::small_rat::rat_attacking(rat, p2, &f2),
{
    reveal(crate::monsters::small_rat::rat_attacking);
    let waited = crate::monsters::small_rat::SmallRatView {
        time_til_move: crate::player::sub_u16(rat.time_til_move, 1),
        ..rat
    };
    if waited.time_til_move == 0 {
        lemma_rat_step(
            waited,
            p1,
            p2,
            f1,
            f2,
            crate::monsters::small_rat::HUNT_SPEED as int,
            false,
        );
        let stepped = crate::monsters::small_rat::rat_step(
            waited,
            p1,
            &f1,
            crate::monsters::small_rat::HUNT_SPEED as int,
            false,
        ).0;
        let needs = crate::monsters::small_rat::rat_step(
            waited,
            p1,
            &f1,
            crate::monsters::small_rat::HUNT_SPEED as int,
            false,
        ).1;
        lemma_hunt_target(stepped, p1, p2, f1, f2);
        let aimed = if needs {
            crate::monsters::small_rat::SmallRatView {
                current_target: Some(crate::monsters::small_rat::hunt_target(stepped, p1, &f1).0),
                attack_mode: crate::monsters::small_rat::hunt_target(stepped, p1, &f1).1,
                ..stepped
            }
        } else {
            stepped
        };
        match aimed.current_target {
            Some(crate::monsters::small_rat::Target::PlayerIndex(i)) => {
                if i < p1.len() {
                    assert(same_player(p1[i as int], p2[i as int]));
                }
            },
            _ => {},
        }
    }
}

/// A blinded rat does the same on alike floors.
pub proof fn lemma_rat_blind(
    rat: crate::monsters::small_rat::SmallRatView,
    f1: Floor,
    f2: Floor,
    state: u64,
)
    requires
        same_tiles(f1.objects@, f2.objects@),
        f1.wf(),
    ensures
        crate::monsters::small_rat::rat_blind(rat, &f1, state)
            == crate::monsters::small_rat::rat_blind(rat, &f2, state),
{
    reveal(crate::monsters::small_rat::rat_blind);
    lemma_floors(f1, f2);
}

/// A rat moves the same among alike players on alike floors.
pub proof fn lemma_rat_moved(
    rat: crate::monsters::small_rat::SmallRatView,
    p1: Seq<Player>,
    p2: Seq<Player>,
    f1: Floor,
    f2: Floor,
    state: u64,
)
    requires
        same_players(p1, p2),
        same_tiles(f1.objects@, f2.objects@),
        f1.wf(),
    ensures
        crate::monsters::small_rat::rat_moved(rat, p1, &f1, state)
            == crate::monsters::small_rat::rat_moved(rat, p2, &f2, state),
{
    reveal(crate::monsters::small_rat::rat_moved);
    lemma_rat_blind(rat, f1, f2, state);
    lemma_rat_passive(rat, p1, p2, f1, f2, state);
    lemma_rat_attacking(rat, p1, p2, f1, f2);
}

/// The touch of a monster takes alike players on alike floors to alike
/// players.
pub proof fn lemma_monster_bites(m: MonsterView, p: Player, q: Player, f1: Floor, f2: Floor)
    requires
        same_player(p, q),
        same_tiles(f1.objects@, f2.objects@),
    ensures
        same_player(
            crate::monsters::monster_bites(m, p, &f1),
            crate::monsters::monster_bites(m, q, &f2),
        ),
{
    reveal(crate::monsters::small_rat::rat_bites);
    reveal(crate::monsters::slime::slime_burns);
    match m {
        MonsterView::SmallRat(rat) => {
            lemma_damaged_player(
                p,
                q,
                crate::monsters::small_rat::DAMAGE,
                crate::monsters::angle_between(p.pos, rat.pos),
                f1,
                f2,
            );
        },
        MonsterView::GreenSlime(slime) => {
            lemma_damaged_player(
                p,
                q,
                crate::monsters::slime::DAMAGE,
                crate::monsters::angle_between(p.pos, slime.pos),
                f1,
                f2,
            );
        },
    }
}

/// Alike floors have the same refuges and the same open tiles, all of them
/// places of tiles.
pub proof fn lemma_refuges(f1: Floor, f2: Floor, from: crate::math::Vec2, n: int)
    requires
        same_tiles(f1.objects@, f2.objects@),
    ensures
        crate::monsters::slime::refuges(&f1, from, n) == crate::monsters::slime::refuges(
            &f2,
            from,
            n,
        ),
        crate::monsters::slime::open_tiles(&f1, n) == crate::monsters::slime::open_tiles(&f2, n),
        forall|k: int|
            0 <= k < crate::monsters::slime::refuges(&f1, from, n).len() ==> (
            #[trigger] crate::monsters::slime::refuges(&f1, from, n)[k]) < f1.objects@.len(),
        forall|k: int|
            0 <= k < crate::monsters::slime::open_tiles(&f1, n).len() ==> (
            #[trigger] crate::monsters::slime::open_tiles(&f1, n)[k]) < f1.objects@.len(),
    decreases n,
{
    if !(n <= 0 || n > f1.objects@.len()) {
        lemma_refuges(f1, f2, from, n - 1);
        assert(same_object(f1.objects@[n - 1], f2.objects@[n - 1]));
        let last = (n - 1) as usize;
        assert(last <= n - 1);
        let r = crate::monsters::slime::refuges(&f1, from, n - 1);
        let o = crate::monsters::slime::open_tiles(&f1, n - 1);
        assert forall|k: int|
            0 <= k < crate::monsters::slime::refuges(&f1, from, n).len() implies (
        #[trigger] crate::monsters::slime::refuges(&f1, from, n)[k]) < f1.objects@.len() by {
            if k < r.len() {
                assert(r[k] < f1.objects@.len());
            }
        }
        assert forall|k: int|
            0 <= k < crate::monsters::slime::open_tiles(&f1, n).len() implies (
        #[trigger] crate::monsters::slime::open_tiles(&f1, n)[k]) < f1.objects@.len() by {
            if k < o.len() {
                assert(o[k] < f1.objects@.len());
            }
        }
    }
}

/// The place that a draw selects is one of the places.
pub proof fn lemma_drawn_place(places: Seq<usize>, state: u64)
    ensures
        crate::monsters::slime::drawn_place(places, state) matches Some(p) ==> places.contains(p),
{
    reveal(crate::monsters::slime::drawn_place);
    reveal(crate::map::drawn_index);
    if places.len() > 0 {
        crate::map::lemma_drawn_index_bounds(places.len() as int, state);
        let k = (places.len() * crate::rng::output(state)) / 0x1_0000_0000;
        assert(k == crate::map::drawn_index(places.len() as int, state));
        assert(places[k] == places[k]);
    }
}

/// A slime takes the same step on alike floors.
pub proof fn lemma_slime_step(
    slime: crate::monsters::slime::GreenSlimeView,
    f1: Floor,
    f2: Floor,
    speed: int,
)
    requires
        same_tiles(f1.objects@, f2.objects@),
        f1.wf(),
    ensures
        crate::monsters::slime::slime_step(slime, &f1, speed)
            == crate::monsters::slime::slime_step(slime, &f2, speed),
{
    reveal(crate::monsters::slime::slime_step);
    lemma_floors(f1, f2);
}

/// A slime moves the same among alike players on alike floors.
pub proof fn lemma_slime_moved(
    slime: crate::monsters::slime::GreenSlimeView,
    p1: Seq<Player>,
    p2: Seq<Player>,
    f1: Floor,
    f2: Floor,
    state: u64,
)
    requires
        same_players(p1, p2),
        same_tiles(f1.objects@, f2.objects@),
        f1.wf(),
    ensures
        crate::monsters::slime::slime_moved(slime, p1, &f1, state)
            == crate::monsters::slime::slime_moved(slime, p2, &f2, state),
{
    reveal(crate::monsters::slime::slime_moved);
    reveal(crate::monsters::slime::slime_passive);
    reveal(crate::monsters::slime::slime_attacking);
    lemma_floors(f1, f2);
    let len = f1.objects@.len() as int;
    let center = crate::monsters::slime::slime_polygon(slime.pos).center;
    match slime.attack_mode {
        crate::monsters::AttackMode::Passive => {
            let visible = f1.visible_from(
                crate::map::tile_of(center),
                crate::monsters::slime::SIGHT as int,
            );
            lemma_first_seen(p1, p2, visible, false, 0);
            lemma_refuges(f1, f2, center, len);
            let open = crate::monsters::slime::open_tiles(&f1, len);
            lemma_drawn_place(open, state);
            let aimed = match crate::monsters::slime::drawn_place(open, state) {
                Some(place) => {
                    assert(same_object(f1.objects@[place as int], f2.objects@[place as int]));
                    crate::monsters::slime::GreenSlimeView {
                        current_target: Some(
                            crate::monsters::small_rat::Target::Pos(
                                crate::map::tile_center(f1.objects@[place as int].pos),
                            ),
                        ),
                        ..slime
                    }
                },
                None => slime,
            };
            lemma_slime_step(aimed, f1, f2, crate::monsters::slime::CREEP_SPEED as int);
            lemma_slime_step(slime, f1, f2, crate::monsters::slime::CREEP_SPEED as int);
        },
        crate::monsters::AttackMode::Attacking => {
            lemma_nearest_player(p1, p2, center, p1.len() as int);
            lemma_slime_step(slime, f1, f2, crate::monsters::slime::FLEE_SPEED as int);
            match crate::monsters::slime::nearest_player(p1, center, p1.len() as int) {
                Some(p) => {
                    assert(same_player(p1[p as int], p2[p as int]));
                    let from = p1[p as int].polygon().center;
                    lemma_refuges(f1, f2, from, len);
                    let places = crate::monsters::slime::refuges(&f1, from, len);
                    lemma_drawn_place(places, state);
                    let aimed = match crate::monsters::slime::drawn_place(places, state) {
                        Some(place) => {
                            assert(same_object(
                                f1.objects@[place as int],
                                f2.objects@[place as int],
                            ));
                            crate::monsters::slime::GreenSlimeView {
                                current_target: Some(
                                    crate::monsters::small_rat::Target::Pos(
                                        crate::map::tile_corner(f1.objects@[place as int].pos),
                                    ),
                                ),
                                ..slime
                            }
                        },
                        None => slime,
                    };
                    lemma_slime_step(aimed, f1, f2, crate::monsters::slime::FLEE_SPEED as int);
                },
                None => {},
            }
        },
    }
}

/// A monster moves the same among alike players on alike floors.
pub proof fn lemma_monster_moved(
    m: MonsterView,
    p1: Seq<Player>,
    p2: Seq<Player>,
    f1: Floor,
    f2: Floor,
    state: u64,
)
    requires
        same_players(p1, p2),
        same_tiles(f1.objects@, f2.objects@),
        f1.wf(),
    ensures
        crate::monsters::monster_moved(m, p1, &f1, state) == crate::monsters::monster_moved(
            m,
            p2,
            &f2,
            state,
        ),
{
    match m {
        MonsterView::SmallRat(rat) => {
            lemma_rat_moved(rat, p1, p2, f1, f2, state);
        },
        MonsterView::GreenSlime(slime) => {
            lemma_slime_moved(slime, p1, p2, f1, f2, state);
        },
    }
}

/// The monsters move the same among alike players on alike floors.
pub proof fn lemma_moved_all(
    monsters: Seq<MonsterView>,
    p1: Seq<Player>,
    p2: Seq<Player>,
    f1: Floor,
    f2: Floor,
    state: u64,
    n: int,
)
    requires
        same_players(p1, p2),
        same_tiles(f1.objects@, f2.objects@),
        f1.wf(),
    ensures
        crate::monsters::moved_all(monsters, p1, &f1, state, n) == crate::monsters::moved_all(
            monsters,
            p2,
            &f2,
            state,
            n,
        ),
    decreases n,
{
    if !(n <= 0 || n > monsters.len()) {
        lemma_moved_all(monsters, p1, p2, f1, f2, state, n - 1);
        let before = crate::monsters::moved_all(monsters, p1, &f1, state, n - 1);
        lemma_monster_moved(
            crate::monsters::monster_enchantments_updated(before.0[n - 1]),
            p1,
            p2,
            f1,
            f2,
            before.1,
        );
    }
}

/// The same slimeballs are thrown at alike players.
pub proof fn lemma_slimeballs(
    p1: Seq<Player>,
    p2: Seq<Player>,
    visible: Seq<usize>,
    center: crate::math::Vec2,
    n: int,
)
    requires
        same_players(p1, p2),
    ensures
        crate::monsters::slime::slimeballs(p1, visible, center, n)
            == crate::monsters::slime::slimeballs(p2, visible, center, n),
    decreases n,
{
    if !(n <= 0 || n > p1.len()) {
        lemma_slimeballs(p1, p2, visible, center, n - 1);
        assert(same_player(p1[n - 1], p2[n - 1]));
    }
}

/// A monster attacks the same among alike players on alike floors.
pub proof fn lemma_monster_attacks(m: MonsterView, p1: Seq<Player>, p2: Seq<Player>, f1: Floor, f2: Floor)
    requires
        same_players(p1, p2),
        same_tiles(f1.objects@, f2.objects@),
        f1.wf(),
    ensures
        crate::monsters::monster_attacks(m, p1, &f1) == crate::monsters::monster_attacks(
            m,
            p2,
            &f2,
        ),
{
    reveal(crate::monsters::slime::slime_attacks);
    lemma_floors(f1, f2);
    match m {
        MonsterView::GreenSlime(slime) => {
            let center = crate::monsters::slime::slime_polygon(slime.pos).center;
            lemma_slimeballs(
                p1,
                p2,
                f1.visible_from(crate::map::tile_of(center), crate::monsters::slime::SIGHT as int),
                center,
                p1.len() as int,
            );
        },
        _ => {},
    }
}

/// The touch of a monster takes alike parties on alike floors to alike
/// parties.
pub proof fn lemma_bitten(m: MonsterView, p1: Seq<Player>, p2: Seq<Player>, f1: Floor, f2: Floor)
    requires
        same_players(p1, p2),
        same_tiles(f1.objects@, f2.objects@),
    ensures
        same_players(crate::monsters::bitten(m, p1, &f1), crate::monsters::bitten(m, p2, &f2)),
{
    let b1 = crate::monsters::bitten(m, p1, &f1);
    let b2 = crate::monsters::bitten(m, p2, &f2);
    assert forall|i: int| 0 <= i < b1.len() implies same_player(#[trigger] b1[i], b2[i]) by {
        assert(same_player(p1[i], p2[i]));
        lemma_monster_bites(m, p1[i], p2[i], f1, f2);
    }
}

/// Whether what two attack phases leave behind is alike.
pub open spec fn same_aftermath(a: crate::monsters::Aftermath, b: crate::monsters::Aftermath) -> bool {
    &&& a.monsters == b.monsters
    &&& same_players(a.players, b.players)
    &&& a.attacks == b.attacks
}

/// The attack of one monster takes alike aftermaths on alike floors to
/// alike aftermaths.
pub proof fn lemma_fought(
    m: MonsterView,
    b1: crate::monsters::Aftermath,
    b2: crate::monsters::Aftermath,
    f1: Floor,
    f2: Floor,
)
    requires
        same_aftermath(b1, b2),
        same_tiles(f1.objects@, f2.objects@),
        f1.wf(),
    ensures
        same_aftermath(crate::monsters::fought(m, b1, &f1), crate::monsters::fought(m, b2, &f2)),
{
    lemma_monster_attacks(m, b1.players, b2.players, f1, f2);
    let monster = crate::monsters::monster_attacks(m, b1.players, &f1).0;
    lemma_bitten(monster, b1.players, b2.players, f1, f2);
    lemma_awarded(
        crate::monsters::bitten(monster, b1.players, &f1),
        crate::monsters::bitten(monster, b2.players, &f2),
        crate::monsters::monster_damaged_by(monster),
        crate::monsters::monster_xp(monster),
        crate::monsters::monster_damaged_by(monster).len() as int,
    );
}

/// The attacks of the monsters take alike parties on alike floors to
/// alike aftermaths.
pub proof fn lemma_fought_all(
    monsters: Seq<MonsterView>,
    p1: Seq<Player>,
    p2: Seq<Player>,
    attacks: Seq<AttackObj>,
    f1: Floor,
    f2: Floor,
    n: int,
)
    requires
        same_players(p1, p2),
        same_tiles(f1.objects@, f2.objects@),
        f1.wf(),
    ensures
        same_aftermath(
            crate::monsters::fought_all(monsters, p1, attacks, &f1, n),
            crate::monsters::fought_all(monsters, p2, attacks, &f2, n),
        ),
    decreases n,
{
    if !(n <= 0 || n > monsters.len()) {
        lemma_fought_all(monsters, p1, p2, attacks, f1, f2, n - 1);
        lemma_fought(
            monsters[n - 1],
            crate::monsters::fought_all(monsters, p1, attacks, &f1, n - 1),
            crate::monsters::fought_all(monsters, p2, attacks, &f2, n - 1),
            f1,
            f2,
        );
    }
}

/// The frame of the monsters takes alike states to alike states.
pub proof fn lemma_monsters_stepped(b1: GameState, b2: GameState, a1: GameState, a2: GameState)
    requires
        same_state(b1, b2),
        b1.wf(),
        b1.same_frame(a1),
        b2.same_frame(a2),
        monsters_stepped(b1, a1),
        monsters_stepped(b2, a2),
    ensures
        same_state(a1, a2),
{
    reveal(same_state);
    lemma_same_floor(b1, b2);
    let f1 = b1.floor();
    let f2 = b2.floor();
    let monsters = monster_views(f1.monsters@);
    let n = f1.monsters@.len() as int;
    lemma_monster_views(f1.monsters@, f2.monsters@);
    lemma_moved_all(monsters, b1.players@, b2.players@, f1.floor, f2.floor, b1.rng.state, n);
    let moved = crate::monsters::moved_all(monsters, b1.players@, &f1.floor, b1.rng.state, n);
    lemma_fought_all(moved.0, b1.players@, b2.players@, b1.attacks@, f1.floor, f2.floor, n);
    let r1 = crate::monsters::fought_all(moved.0, b1.players@, b1.attacks@, &f1.floor, n);
    let r2 = crate::monsters::fought_all(moved.0, b2.players@, b2.attacks@, &f2.floor, n);
    assert(same_aftermath(r1, r2));
    assert(monster_views(a1.floor().monsters@) == r1.monsters);
    assert(monster_views(a2.floor().monsters@) == r2.monsters);
    assert(a1.players@ == r1.players);
    assert(a2.players@ == r2.players);
    assert(same_level(a1.floor(), a2.floor()));
    lemma_same_but_floor(b1, b2, a1, a2);
}

} // verus!
