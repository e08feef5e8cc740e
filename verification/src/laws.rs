//! The library's global laws, stated and proved once over the invariant
//! and the lifecycle specifications.
use crate::board::{TDBoard, coverage};
use crate::enemies::{
    after_damage, after_move, breach_count, dead_count, moved, recalc_applied, sat_add, spec_gain,
};
use crate::grid::{HexGrid, all_cells_free, is_grid_route, route_penalties};
use crate::hex::{Hex, hex_dist, origin};
use vstd::prelude::*;

verus! {

/// Law: every well-formed board has exactly one goal cell, the origin, and
/// exactly six distinct spawn cells, each marked by its spawn flag. Terrain
/// toggling cannot disturb this: `toggle_tile` guarantees that every flag
/// of every tile is left as it was.
pub proof fn law_goal_and_spawns(b: TDBoard)
    requires
        b.wf(),
    ensures
        exists|i: int|
            0 <= i < b.grid.tiles@.len() && (#[trigger] b.grid.tiles@[i]).is_goal
                && b.grid.coords@[i] == origin(),
        forall|i: int, j: int|
            0 <= i < b.grid.tiles@.len() && 0 <= j < b.grid.tiles@.len() && (
            #[trigger] b.grid.tiles@[i]).is_goal && (#[trigger] b.grid.tiles@[j]).is_goal ==> i
                == j,
        b.paths.spawns@.len() == 6,
        b.paths.spawns@.no_duplicates(),
        forall|j: int|
            0 <= j < 6 ==> {
                let i = b.grid.idx_of(#[trigger] b.paths.spawns@[j]);
                &&& 0 <= i < b.grid.tiles@.len()
                &&& b.grid.coords@[i] == b.paths.spawns@[j]
                &&& b.grid.tiles@[i].is_spawn
            },
        forall|i: int|
            0 <= i < b.grid.tiles@.len() && (#[trigger] b.grid.tiles@[i]).is_spawn
                ==> b.paths.spawns@.contains(b.grid.coords@[i]),
{
    assert(b.grid.tiles@[0].is_goal && b.grid.coords@[0] == origin());
    assert forall|j: int| 0 <= j < 6 implies {
        let i = b.grid.idx_of(#[trigger] b.paths.spawns@[j]);
        &&& 0 <= i < b.grid.tiles@.len()
        &&& b.grid.coords@[i] == b.paths.spawns@[j]
        &&& b.grid.tiles@[i].is_spawn
    } by {
        b.grid.lemma_idx_of(b.paths.spawns@[j]);
    }
}

/// Law: a coordinate is addressable exactly when it lies within the board
/// radius; a toggle addressed outside resolves to nothing and is a no-op.
pub proof fn law_grid_addressable(g: HexGrid, h: Hex)
    requires
        g.wf(),
    ensures
        g.contains_hex(h) <==> hex_dist(origin(), h) <= g.radius,
{
    if g.contains_hex(h) {
        let k = choose|k: int| 0 <= k < g.coords@.len() && g.coords@[k] == h;
        assert(hex_dist(origin(), g.coords@[k]) <= g.radius);
    }
}

/// Law: after any route recomputation the on-path flags mark exactly the
/// union of the six computed route sequences; no stray flag survives from
/// an earlier computation.
pub proof fn law_on_path_matches_routes(b: TDBoard)
    requires
        b.wf(),
        b.paths.paths is Some,
    ensures
        forall|i: int|
            0 <= i < b.grid.tiles@.len() ==> ((#[trigger] b.grid.tiles@[i]).on_path
                <==> b.paths.any_route_contains(b.grid.coords@[i])),
{
}

/// Law: on every well-formed board the overlay entry of an on-path cell is
/// exactly the sum of `damage(type)` over the live towers whose range ring
/// covers the cell, and cells off the path hold no entry at all.
pub proof fn law_overlay_is_coverage(b: TDBoard, i: int)
    requires
        b.wf(),
        0 <= i < b.grid.tiles@.len(),
    ensures
        b.grid.tiles@[i].on_path && coverage(b.towers@, b.grid.coords@[i]) > 0
            ==> b.grid.tiles@[i].damaging == Some(
            crate::components::Damaging {
                value: coverage(b.towers@, b.grid.coords@[i]) as u32,
            },
        ),
        !b.grid.tiles@[i].on_path ==> b.grid.tiles@[i].damaging is None,
{
}

/// Law: the planner prefers penalty-free corridors. After a recomputation,
/// whenever some route from a spawn to the goal avoids every mountain and
/// tower (priced as the recomputation saw them), the stored route for that
/// spawn avoids them all too; and in every case it reaches the goal.
pub proof fn law_penalty_free_when_possible(pre: TDBoard, post: TDBoard, k: int, q: Seq<Hex>)
    requires
        recalc_applied(pre, post),
        0 <= k < 6,
        is_grid_route(pre.grid, q, pre.paths.spawns@[k], origin()),
        route_penalties(pre.grid, q) == 0,
    ensures
        route_penalties(pre.grid, post.paths.route(k)) == 0,
        post.paths.route(k).len() >= 1,
        post.paths.route(k)[0] == pre.paths.spawns@[k],
        post.paths.route(k)[post.paths.route(k).len() - 1] == origin(),
{
}

/// Law: on an all-plains, towerless board every recomputed route is a
/// straight walk home: its length is the hex distance from its spawn to the
/// goal plus one, that is, the board radius plus one.
pub proof fn law_straight_routes_on_free_board(pre: TDBoard, post: TDBoard)
    requires
        recalc_applied(pre, post),
        all_cells_free(pre.grid),
    ensures
        forall|k: int|
            0 <= k < 6 ==> (#[trigger] post.paths.route(k)).len() == pre.grid.radius + 1,
{
}

/// Law: the kill credit can only grow the budget; together with the
/// placement gate, which debits only when the cost fits the budget, the
/// budget can never go below zero.
pub proof fn law_credit_never_decreases_budget(budget: u32, credit: nat)
    ensures
        sat_add(budget, credit) >= budget,
{
}

/// Law: a damage tick removes a dying enemy exactly once: the survivors and
/// the dead together account for every enemy that entered the tick.
pub proof fn law_damage_conservation(b: TDBoard, es: Seq<crate::components::EnemyUnit>)
    ensures
        after_damage(b, es).len() + dead_count(b, es) == es.len(),
    decreases es.len(),
{
    if es.len() > 0 {
        law_damage_conservation(b, es.drop_last());
    }
}

/// Law: a movement tick removes a breaching enemy exactly once, and a
/// breach is counted for the enemy score exactly once; survivors, breaches
/// and strandings together account for every enemy that entered the tick.
pub proof fn law_movement_conservation(
    b: TDBoard,
    es: Seq<crate::components::EnemyUnit>,
    base_milli: u32,
    dt_ms: u32,
)
    ensures
        after_move(b, es, base_milli, dt_ms).len() + breach_count(b, es, base_milli, dt_ms)
            <= es.len(),
    decreases es.len(),
{
    if es.len() > 0 {
        law_movement_conservation(b, es.drop_last(), base_milli, dt_ms);
        let u = es.last();
        let step = moved(b, u, spec_gain(u.moves.speed_milli, base_milli, dt_ms));
        if step.1 {
            assert(step.0 is None);
        }
    }
}

} // verus!
