//! The path planner and the enemy lifecycle: route recomputation around
//! obstacles, spawning, movement, and damage resolution.
use crate::board::{TDBoard, kept_enemies, kept_towers, same_tile_core};
use crate::components::{EnemyUnit, TDTimers};
use crate::grid::{HexGrid, all_cells_free, is_grid_route, lemma_same_costs, lemma_same_penalties,
    route_penalties};
use crate::hex::{Hex, adjacent, hex_dist, origin};
use crate::towers::{refresh_damaging_tiles, remove_towers_on_path};
use vstd::prelude::*;

verus! {

/// Relies on hexx's `a_star`: best-first search from `start` to `goal` with
/// the hex-distance heuristic and this grid's cost function. When it finds a
/// route, the route begins at `start`, ends at `goal`, advances one adjacent
/// cell at a time (`all_neighbors` steps), and never leaves the board (the
/// cost closure returns `None` off the board, and such cells are not
/// traversed; both endpoints are cost-checked up front).
///
/// Three further clauses follow from the search on this grid's cost
/// landscape, where every cost is a multiple of the 1000 penalty and a
/// well-formed grid keeps the heuristic (hex distance, at most twice the
/// radius of 64) strictly below it:
/// - With both endpoints on the board the search succeeds: the cost closure
///   accepts exactly the cells within the radius, one connected disk, and
///   the search explores every reachable accepted cell until the goal pops.
/// - The route found crosses as few penalized cells as any board route
///   between the endpoints: a node popped after k penalties scores below
///   1000(k+1), while a cheaper route always keeps an open node scoring
///   below its own bound, so the goal cannot pop above the minimum.
/// - On an all-free board every score equals the heuristic, the search
///   expands exactly one cell per distance level, and the predecessor chain
///   steps the distance down by one: the route has minimal length.
#[verifier::external_body]
fn astar_route(grid: &HexGrid, start: Hex, goal: Hex) -> (r: Option<Vec<Hex>>)
    requires
        grid.wf(),
    ensures
        grid.contains_hex(start) && grid.contains_hex(goal) ==> r is Some,
        match r {
            Some(p) => {
                &&& p@.len() >= 1
                &&& p@[0] == start
                &&& p@[p@.len() - 1] == goal
                &&& forall|j: int| 0 <= j < p@.len() - 1 ==> adjacent(#[trigger] p@[j], p@[j + 1])
                &&& forall|j: int| 0 <= j < p@.len() ==> grid.contains_hex(#[trigger] p@[j])
                &&& forall|q: Seq<Hex>|
                    #[trigger] is_grid_route(*grid, q, start, goal) ==> route_penalties(*grid, p@)
                        <= route_penalties(*grid, q)
                &&& all_cells_free(*grid) ==> p@.len() == hex_dist(start, goal) + 1
            },
            None => true,
        },
{
    let s = hexx::Hex { x: start.x, y: start.y };
    let g = hexx::Hex { x: goal.x, y: goal.y };
    hexx::algorithms::a_star(s, g, |_a, b: hexx::Hex| grid.route_cost(Hex { x: b.x, y: b.y })).map(
        |p| p.iter().map(|h| Hex { x: h.x, y: h.y }).collect(),
    )
}

/// Whether one of the first `upto` routes passes through `h`.
pub open spec fn in_routes_prefix(routes: Seq<Vec<Hex>>, upto: int, h: Hex) -> bool {
    exists|k: int, j: int|
        0 <= k < upto && 0 <= j < routes[k]@.len() && #[trigger] routes[k]@[j] == h
}

/// Whether one of the first `upto` cells of a route is `h`.
pub open spec fn in_route_prefix(route: Seq<Hex>, upto: int, h: Hex) -> bool {
    exists|j: int| 0 <= j < upto && #[trigger] route[j] == h
}

/// The route-recomputation relation: everything `recalculate_enemy_path`
/// promises of the board it leaves behind, over the board it started from.
/// Routes are always found (the board is one connected disk) and replaced
/// wholesale; each runs from its spawn to the goal and crosses as few
/// penalized cells as any candidate route, measured against the terrain and
/// towers the recomputation started from; on an all-free board each route
/// has minimal length. Towers on the new routes are destroyed, enemies are
/// re-tied to the new routes or stranded, the overlay is rebuilt; terrain,
/// goal and spawn cells, budget, scores, and timers are untouched.
pub open spec fn recalc_applied(pre: TDBoard, post: TDBoard) -> bool {
    &&& post.wf()
    &&& post.paths.paths is Some
    &&& post.paths.spawns == pre.paths.spawns
    &&& post.grid.coords == pre.grid.coords
    &&& post.grid.radius == pre.grid.radius
    &&& post.grid.tiles@.len() == pre.grid.tiles@.len()
    &&& forall|k: int|
        0 <= k < pre.grid.tiles@.len() ==> same_tile_core(
            #[trigger] post.grid.tiles@[k],
            pre.grid.tiles@[k],
        )
    &&& forall|k: int| 0 <= k < 6 ==> #[trigger] post.paths.route(k).len() >= 1
    &&& forall|k: int|
        0 <= k < 6 ==> (#[trigger] post.paths.route(k))[0] == pre.paths.spawns@[k]
            && post.paths.route(k)[post.paths.route(k).len() - 1] == origin()
    &&& forall|k: int, q: Seq<Hex>|
        0 <= k < 6 && #[trigger] is_grid_route(pre.grid, q, pre.paths.spawns@[k], origin())
            ==> route_penalties(pre.grid, post.paths.route(k)) <= route_penalties(pre.grid, q)
    &&& (all_cells_free(pre.grid) ==> forall|k: int|
        0 <= k < 6 ==> #[trigger] post.paths.route(k).len() == pre.grid.radius + 1)
    &&& post.towers@ == kept_towers(pre.towers@, post.paths)
    &&& post.enemies@ == kept_enemies(pre.enemies@, post.paths)
    &&& post.budget == pre.budget
    &&& post.score == pre.score
    &&& post.timers == pre.timers
    &&& post.game_timer == pre.game_timer
}

/// Assemble the recomputation relation from the facts the recomputation
/// establishes along the way, with the route set pinned by a snapshot.
proof fn lemma_assemble_recalc(pre: TDBoard, routed: crate::board::TDPaths, post: TDBoard)
    requires
        post.wf(),
        post.paths == routed,
        routed.paths is Some,
        routed.spawns == pre.paths.spawns,
        post.grid.coords == pre.grid.coords,
        post.grid.radius == pre.grid.radius,
        post.grid.tiles@.len() == pre.grid.tiles@.len(),
        forall|k: int|
            0 <= k < pre.grid.tiles@.len() ==> same_tile_core(
                #[trigger] post.grid.tiles@[k],
                pre.grid.tiles@[k],
            ),
        forall|k: int| 0 <= k < 6 ==> (#[trigger] routed.route(k)).len() >= 1,
        forall|k: int|
            0 <= k < 6 ==> (#[trigger] routed.route(k))[0] == pre.paths.spawns@[k]
                && routed.route(k)[routed.route(k).len() - 1] == origin(),
        forall|k: int, q: Seq<Hex>|
            0 <= k < 6 && #[trigger] is_grid_route(pre.grid, q, pre.paths.spawns@[k], origin())
                ==> route_penalties(pre.grid, routed.route(k)) <= route_penalties(pre.grid, q),
        all_cells_free(pre.grid) ==> forall|k: int|
            0 <= k < 6 ==> (#[trigger] routed.route(k)).len() == pre.grid.radius + 1,
        post.towers@ == kept_towers(pre.towers@, routed),
        post.enemies@ == kept_enemies(pre.enemies@, routed),
        post.budget == pre.budget,
        post.score == pre.score,
        post.timers == pre.timers,
        post.game_timer == pre.game_timer,
    ensures
        recalc_applied(pre, post),
{
}

/// Recompute all six spawn routes from scratch and rebuild everything that
/// hangs off them. The on-path flags are wiped and reassigned to exactly the
/// union of the new routes; towers whose cell the new routes cross are
/// destroyed; enemies whose progress no longer addresses a cell of their
/// spawn's new route are stranded and destroyed with no credit to either
/// side, the rest continue on the new route from the same index; finally the
/// damage overlay is rebuilt against the new path set. Terrain, goal and
/// spawn cells, budget, scores, and timers are untouched.
#[verifier::spinoff_prover]
#[verifier::rlimit(100)]
pub fn recalculate_enemy_path(board: &mut TDBoard)
    requires
        old(board).wf(),
    ensures
        final(board).wf(),
        recalc_applied(*old(board), *final(board)),
{
    let n = board.grid.tiles.len();
    let mut i: usize = 0;
    while i < n
        invariant
            i <= n,
            n == board.grid.tiles@.len(),
            board.grid.coords == old(board).grid.coords,
            board.grid.radius == old(board).grid.radius,
            board.grid.tiles@.len() == old(board).grid.tiles@.len(),
            board.paths == old(board).paths,
            board.towers == old(board).towers,
            board.enemies == old(board).enemies,
            board.budget == old(board).budget,
            board.score == old(board).score,
            board.timers == old(board).timers,
            board.game_timer == old(board).game_timer,
            forall|k: int|
                0 <= k < n ==> same_tile_core(
                    #[trigger] board.grid.tiles@[k],
                    old(board).grid.tiles@[k],
                ) && board.grid.tiles@[k].has_tower == old(board).grid.tiles@[k].has_tower,
            forall|k: int|
                0 <= k < i ==> !(#[trigger] board.grid.tiles@[k]).on_path
                    && board.grid.tiles@[k].damaging is None,
            forall|k: int|
                i <= k < n ==> (#[trigger] board.grid.tiles@[k]).on_path == old(
                    board,
                ).grid.tiles@[k].on_path && board.grid.tiles@[k].damaging == old(
                    board,
                ).grid.tiles@[k].damaging,
        decreases n - i,
    {
        board.grid.tiles[i].on_path = false;
        board.grid.tiles[i].damaging = None;
        i += 1;
    }
    let mut routes: Vec<Vec<Hex>> = Vec::new();
    let mut k: usize = 0;
    while k < 6
        invariant
            k <= 6,
            routes@.len() == k,
            n == board.grid.tiles@.len(),
            board.grid.coords == old(board).grid.coords,
            board.grid.radius == old(board).grid.radius,
            board.grid.tiles@.len() == old(board).grid.tiles@.len(),
            board.grid.wf(),
            board.paths == old(board).paths,
            board.towers == old(board).towers,
            board.enemies == old(board).enemies,
            board.budget == old(board).budget,
            board.score == old(board).score,
            board.timers == old(board).timers,
            board.game_timer == old(board).game_timer,
            forall|kk: int|
                0 <= kk < n ==> same_tile_core(
                    #[trigger] board.grid.tiles@[kk],
                    old(board).grid.tiles@[kk],
                ) && board.grid.tiles@[kk].has_tower == old(board).grid.tiles@[kk].has_tower,
            forall|kk: int|
                0 <= kk < n ==> (#[trigger] board.grid.tiles@[kk]).damaging is None,
            forall|kk: int|
                0 <= kk < n ==> ((#[trigger] board.grid.tiles@[kk]).on_path <==> in_routes_prefix(
                    routes@,
                    k as int,
                    board.grid.coords@[kk],
                )),
            forall|kk: int|
                0 <= kk < k && #[trigger] routes@[kk]@.len() > 0 ==> routes@[kk]@[0] == old(
                    board,
                ).paths.spawns@[kk] && routes@[kk]@[routes@[kk]@.len() - 1] == (Hex {
                    x: 0,
                    y: 0,
                }),
            forall|kk: int, j: int|
                0 <= kk < k && 0 <= j < routes@[kk]@.len() ==> board.grid.contains_hex(
                    #[trigger] routes@[kk]@[j],
                ),
            forall|kk: int, j: int|
                0 <= kk < k && 0 <= j < routes@[kk]@.len() - 1 ==> adjacent(
                    #[trigger] routes@[kk]@[j],
                    routes@[kk]@[j + 1],
                ),
            forall|kk: int| 0 <= kk < k ==> (#[trigger] routes@[kk]@).len() >= 1,
            forall|kk: int, q: Seq<Hex>|
                0 <= kk < k && #[trigger] is_grid_route(
                    old(board).grid,
                    q,
                    old(board).paths.spawns@[kk],
                    origin(),
                ) ==> route_penalties(old(board).grid, routes@[kk]@) <= route_penalties(
                    old(board).grid,
                    q,
                ),
            all_cells_free(old(board).grid) ==> forall|kk: int|
                0 <= kk < k ==> (#[trigger] routes@[kk]@).len() == old(board).grid.radius + 1,
        decreases 6 - k,
    {
        let spawn = board.paths.spawns[k];
        proof {
            assert(old(board).spawns_wf());
            assert(board.grid.coords@ == old(board).grid.coords@);
            assert(spawn == old(board).paths.spawns@[k as int]);
            assert(old(board).grid.contains_hex(spawn));
            assert(board.grid.contains_hex(spawn));
            assert(old(board).grid.coords@[0] == origin());
            assert(board.grid.contains_hex(origin()));
        }
        let found = astar_route(&board.grid, spawn, Hex::zero());
        let route: Vec<Hex> = match found {
            Some(p) => p,
            None => {
                proof {
                    assert(false);
                }
                Vec::new()
            },
        };
        proof {
            lemma_same_costs(old(board).grid, board.grid);
            assert forall|q: Seq<Hex>|
                #[trigger] is_grid_route(old(board).grid, q, spawn, origin()) implies route_penalties(
                old(board).grid,
                route@,
            ) <= route_penalties(old(board).grid, q) by {
                assert(is_grid_route(board.grid, q, spawn, origin()));
                lemma_same_penalties(old(board).grid, board.grid, q);
                lemma_same_penalties(old(board).grid, board.grid, route@);
            }
            if all_cells_free(old(board).grid) {
                assert forall|h: Hex|
                    board.grid.contains_hex(h) implies #[trigger] board.grid.route_cost_spec(h)
                    == Some(0u32) by {
                    assert(old(board).grid.contains_hex(h));
                    assert(old(board).grid.route_cost_spec(h) == Some(0u32));
                }
                assert(all_cells_free(board.grid));
                assert(hex_dist(origin(), spawn) == old(board).grid.radius);
                assert(hex_dist(spawn, origin()) == hex_dist(origin(), spawn));
                assert(route@.len() == old(board).grid.radius + 1);
            }
        }
        let m = route.len();
        let mut j: usize = 0;
        while j < m
            invariant
                j <= m,
                m == route@.len(),
                n == board.grid.tiles@.len(),
                board.grid.coords == old(board).grid.coords,
                board.grid.radius == old(board).grid.radius,
                board.grid.wf(),
                forall|jj: int| 0 <= jj < m ==> board.grid.contains_hex(#[trigger] route@[jj]),
                board.paths == old(board).paths,
                board.towers == old(board).towers,
                board.enemies == old(board).enemies,
                board.budget == old(board).budget,
                board.score == old(board).score,
                board.timers == old(board).timers,
                board.game_timer == old(board).game_timer,
                forall|kk: int|
                    0 <= kk < n ==> same_tile_core(
                        #[trigger] board.grid.tiles@[kk],
                        old(board).grid.tiles@[kk],
                    ) && board.grid.tiles@[kk].has_tower == old(board).grid.tiles@[kk].has_tower,
                forall|kk: int|
                    0 <= kk < n ==> (#[trigger] board.grid.tiles@[kk]).damaging is None,
                forall|kk: int|
                    0 <= kk < n ==> ((#[trigger] board.grid.tiles@[kk]).on_path
                        <==> in_routes_prefix(routes@, k as int, board.grid.coords@[kk])
                        || in_route_prefix(route@, j as int, board.grid.coords@[kk])),
            decreases m - j,
        {
            let h = route[j];
            let idx = match board.grid.resolve(h) {
                Some(idx) => idx,
                None => {
                    proof {
                        assert(board.grid.contains_hex(route@[j as int]));
                        assert(false);
                    }
                    0
                },
            };
            proof {
                board.grid.lemma_idx_of(h);
            }
            board.grid.tiles[idx].on_path = true;
            proof {
                assert forall|kk: int|
                    0 <= kk < n implies ((#[trigger] board.grid.tiles@[kk]).on_path
                    <==> in_routes_prefix(routes@, k as int, board.grid.coords@[kk])
                    || in_route_prefix(route@, j as int + 1, board.grid.coords@[kk])) by {
                    if kk == idx {
                        assert(route@[j as int] == board.grid.coords@[kk]);
                        assert(in_route_prefix(route@, j as int + 1, board.grid.coords@[kk]));
                    } else {
                        if in_route_prefix(route@, j as int + 1, board.grid.coords@[kk]) {
                            let jj = choose|jj: int|
                                0 <= jj < j + 1 && route@[jj] == board.grid.coords@[kk];
                            if jj == j {
                                board.grid.lemma_idx_of(h);
                                assert(false);
                            } else {
                                assert(in_route_prefix(route@, j as int, board.grid.coords@[kk]));
                            }
                        }
                    }
                }
            }
            j += 1;
        }
        let ghost old_routes = routes@;
        routes.push(route);
        proof {
            assert forall|kk: int|
                0 <= kk < n implies ((#[trigger] board.grid.tiles@[kk]).on_path
                <==> in_routes_prefix(routes@, k as int + 1, board.grid.coords@[kk])) by {
                let h = board.grid.coords@[kk];
                if board.grid.tiles@[kk].on_path {
                    if in_routes_prefix(old_routes, k as int, h) {
                        let (k2, j2): (int, int) = choose|k2: int, j2: int|
                            0 <= k2 < k && 0 <= j2 < old_routes[k2]@.len()
                                && #[trigger] old_routes[k2]@[j2] == h;
                        assert(routes@[k2]@[j2] == h);
                    } else {
                        let j2 = choose|j2: int| 0 <= j2 < m && #[trigger] route@[j2] == h;
                        assert(routes@[k as int]@[j2] == h);
                    }
                } else {
                    if in_routes_prefix(routes@, k as int + 1, h) {
                        let (k2, j2): (int, int) = choose|k2: int, j2: int|
                            0 <= k2 < k + 1 && 0 <= j2 < routes@[k2]@.len()
                                && #[trigger] routes@[k2]@[j2] == h;
                        if k2 < k {
                            assert(old_routes[k2]@[j2] == h);
                            assert(in_routes_prefix(old_routes, k as int, h));
                        } else {
                            assert(route@[j2] == h);
                            assert(in_route_prefix(route@, m as int, h));
                        }
                        assert(false);
                    }
                }
            }
        }
        k += 1;
    }
    board.paths.paths = Some(routes);
    let ghost routed = board.paths;
    proof {
        assert(board.paths.n_routes() == 6);
        assert(routed.spawns == old(board).paths.spawns);
        assert forall|kk: int| 0 <= kk < 6 implies (#[trigger] routed.route(kk)).len() >= 1 by {}
        assert forall|kk: int| 0 <= kk < 6 implies (#[trigger] routed.route(kk))[0] == old(
            board,
        ).paths.spawns@[kk] && routed.route(kk)[routed.route(kk).len() - 1] == origin() by {}
        assert forall|kk: int, q: Seq<Hex>|
            0 <= kk < 6 && #[trigger] is_grid_route(
                old(board).grid,
                q,
                old(board).paths.spawns@[kk],
                origin(),
            ) implies route_penalties(old(board).grid, routed.route(kk)) <= route_penalties(
            old(board).grid,
            q,
        ) by {}
        if all_cells_free(old(board).grid) {
            assert forall|kk: int| 0 <= kk < 6 implies (#[trigger] routed.route(kk)).len() == old(
                board,
            ).grid.radius + 1 by {}
        }
        assert forall|kk: int|
            0 <= kk < n implies ((#[trigger] board.grid.tiles@[kk]).on_path
            <==> board.paths.any_route_contains(board.grid.coords@[kk])) by {
            let h = board.grid.coords@[kk];
            if board.grid.tiles@[kk].on_path {
                let (k2, j2): (int, int) = choose|k2: int, j2: int|
                    0 <= k2 < 6 && 0 <= j2 < board.paths.paths->Some_0@[k2]@.len()
                        && #[trigger] board.paths.paths->Some_0@[k2]@[j2] == h;
                assert(board.paths.route(k2)[j2] == h);
            } else {
                if board.paths.any_route_contains(h) {
                    let (k2, j2): (int, int) = choose|k2: int, j2: int|
                        0 <= k2 < board.paths.n_routes() && 0 <= j2 < board.paths.route(k2).len()
                            && #[trigger] board.paths.route(k2)[j2] == h;
                    assert(board.paths.paths->Some_0@[k2]@[j2] == h);
                    assert(in_routes_prefix(board.paths.paths->Some_0@, 6, h));
                    assert(false);
                }
            }
        }
        assert(board.grid.wf());
        assert(board.spawns_wf());
        assert(board.paths_wf());
        assert(board.towers_linked());
        assert(board.towers_off_goal_spawn());
        assert(board.timers_wf());
    }
    remove_towers_on_path(board);
    let ghost es = board.enemies@;
    let ghost new_paths = board.paths;
    let mut kept: Vec<EnemyUnit> = Vec::new();
    let ne = board.enemies.len();
    let mut e: usize = 0;
    while e < ne
        invariant
            e <= ne,
            ne == es.len(),
            board.enemies@ == es,
            board.paths == new_paths,
            new_paths.paths is Some,
            new_paths.n_routes() == 6,
            kept@ == kept_enemies(es.take(e as int), new_paths),
            forall|x: int|
                0 <= x < es.len() ==> (#[trigger] es[x]).moves.lerp_milli <= 1000
                    && es[x].moves.speed_milli <= 1000 && es[x].enemy.health >= 1,
            forall|x: int|
                0 <= x < kept@.len() ==> {
                    let u = #[trigger] kept@[x];
                    &&& u.moves.spawn_index < 6
                    &&& u.moves.progress < new_paths.route(u.moves.spawn_index as int).len()
                    &&& u.moves.lerp_milli <= 1000
                    &&& u.moves.speed_milli <= 1000
                    &&& u.enemy.health >= 1
                },
        decreases ne - e,
    {
        let u = board.enemies[e];
        proof {
            assert(es.take(e as int + 1).drop_last() == es.take(e as int));
            assert(es.take(e as int + 1).last() == es[e as int]);
        }
        let keep = if u.moves.spawn_index < 6 {
            let len = route_len_at(&board.paths, u.moves.spawn_index);
            u.moves.progress < len
        } else {
            false
        };
        if keep {
            kept.push(u);
        }
        e += 1;
    }
    proof {
        assert(es.take(ne as int) == es);
    }
    board.enemies = kept;
    proof {
        assert(board.enemies_wf());
    }
    refresh_damaging_tiles(board);
    proof {
        assert(board.paths == routed);
        lemma_assemble_recalc(*old(board), routed, *board);
    }
}

/// Length of the route assigned to one spawn.
fn route_len_at(p: &crate::board::TDPaths, k: usize) -> (m: usize)
    requires
        p.paths is Some,
        k < p.n_routes(),
    ensures
        m == p.route(k as int).len(),
{
    match &p.paths {
        Some(v) => v[k].len(),
        None => {
            proof {
                assert(false);
            }
            0
        },
    }
}

/// The overlay damage waiting on a cell; zero where no entry exists.
pub open spec fn overlay_at(b: TDBoard, h: Hex) -> u32 {
    if b.grid.contains_hex(h) {
        match b.grid.tile_at(h).damaging {
            Some(d) => d.value,
            None => 0u32,
        }
    } else {
        0u32
    }
}

/// The cell an enemy currently occupies: the cell of its route addressed by
/// its progress index.
pub open spec fn enemy_hex(b: TDBoard, u: EnemyUnit) -> Hex {
    b.paths.route(u.moves.spawn_index as int)[u.moves.progress as int]
}

/// One enemy after one damage tick: its health loses the overlay value at
/// its current cell, saturating at zero.
pub open spec fn damaged(b: TDBoard, u: EnemyUnit) -> EnemyUnit {
    let d = overlay_at(b, enemy_hex(b, u));
    EnemyUnit {
        enemy: crate::components::Enemy {
            health: if u.enemy.health >= d {
                (u.enemy.health - d) as u32
            } else {
                0u32
            },
            value: u.enemy.value,
        },
        moves: u.moves,
    }
}

/// The enemy list after one damage tick: every enemy damaged, the dead
/// removed, order kept.
pub open spec fn after_damage(b: TDBoard, es: Seq<EnemyUnit>) -> Seq<EnemyUnit>
    decreases es.len(),
{
    if es.len() == 0 {
        es
    } else {
        let rest = after_damage(b, es.drop_last());
        let u2 = damaged(b, es.last());
        if u2.enemy.health > 0 {
            rest.push(u2)
        } else {
            rest
        }
    }
}

/// Total budget reward of the enemies a damage tick kills.
pub open spec fn dead_value_sum(b: TDBoard, es: Seq<EnemyUnit>) -> nat
    decreases es.len(),
{
    if es.len() == 0 {
        0
    } else {
        dead_value_sum(b, es.drop_last()) + (if damaged(b, es.last()).enemy.health == 0 {
            es.last().enemy.value as nat
        } else {
            0
        })
    }
}

/// How many enemies a damage tick kills.
pub open spec fn dead_count(b: TDBoard, es: Seq<EnemyUnit>) -> nat
    decreases es.len(),
{
    if es.len() == 0 {
        0
    } else {
        dead_count(b, es.drop_last()) + (if damaged(b, es.last()).enemy.health == 0 {
            1nat
        } else {
            0
        })
    }
}

/// Saturating addition on the budget and score counters.
pub open spec fn sat_add(a: u32, b: nat) -> u32 {
    if a + b > u32::MAX {
        u32::MAX
    } else {
        (a + b) as u32
    }
}

/// The damage-phase relation: everything `handle_enemy_damage` promises.
/// Off the tick boundary only the damage timer moves; on it every enemy
/// loses exactly the overlay value at its cell, the dead are removed and
/// credited, the player score counts each exactly once.
pub open spec fn damage_applied(pre: TDBoard, dt_ms: u32, post: TDBoard) -> bool {
    &&& post.wf()
    &&& post.grid == pre.grid
    &&& post.paths == pre.paths
    &&& post.towers == pre.towers
    &&& post.game_timer == pre.game_timer
    &&& post.timers == (TDTimers {
        tower_damaging_rate: pre.timers.tower_damaging_rate.spec_after(dt_ms),
        ..pre.timers
    })
    &&& {
        let fired = pre.timers.tower_damaging_rate.spec_fires(dt_ms);
        &&& !fired ==> post.enemies == pre.enemies && post.budget == pre.budget && post.score
            == pre.score
        &&& fired ==> {
            &&& post.enemies@ == after_damage(pre, pre.enemies@)
            &&& post.budget.0 == sat_add(pre.budget.0, dead_value_sum(pre, pre.enemies@))
            &&& post.score.player_score == sat_add(
                pre.score.player_score,
                dead_count(pre, pre.enemies@),
            )
            &&& post.score.enemy_score == pre.score.enemy_score
        }
    }
}

/// Apply one damage tick if the damage timer fires. Every live enemy loses
/// exactly the overlay value at its current cell, saturating at zero; an
/// enemy reaching zero health is removed, its value is credited to the
/// budget (saturating, so the budget never decreases here) and the player
/// score counts it exactly once. Off the tick boundary only the timer moves.
#[verifier::rlimit(100)]
pub fn handle_enemy_damage(board: &mut TDBoard, dt_ms: u32)
    requires
        old(board).wf(),
    ensures
        final(board).wf(),
        damage_applied(*old(board), dt_ms, *final(board)),
{
    let fired = board.timers.tower_damaging_rate.tick(dt_ms);
    if !fired {
        return ;
    }
    let ghost snap = *old(board);
    let ghost es = board.enemies@;
    let ne = board.enemies.len();
    let mut survivors: Vec<EnemyUnit> = Vec::new();
    let mut e: usize = 0;
    while e < ne
        invariant
            e <= ne,
            ne == es.len(),
            board.enemies@ == es,
            board.grid == snap.grid,
            board.paths == snap.paths,
            board.towers == snap.towers,
            board.game_timer == snap.game_timer,
            board.timers == (crate::components::TDTimers {
                tower_damaging_rate: snap.timers.tower_damaging_rate.spec_after(dt_ms),
                ..snap.timers
            }),
            board.score.enemy_score == snap.score.enemy_score,
            snap.wf(),
            survivors@ == after_damage(snap, es.take(e as int)),
            board.budget.0 == sat_add(snap.budget.0, dead_value_sum(snap, es.take(e as int))),
            board.score.player_score == sat_add(
                snap.score.player_score,
                dead_count(snap, es.take(e as int)),
            ),
        decreases ne - e,
    {
        let u = board.enemies[e];
        proof {
            assert(es.take(e as int + 1).drop_last() == es.take(e as int));
            assert(es.take(e as int + 1).last() == es[e as int]);
            assert(snap.enemies_wf());
            assert(snap.enemies@[e as int] == u);
        }
        let len = route_len_at(&board.paths, u.moves.spawn_index);
        let h = route_cell_at(&board.paths, u.moves.spawn_index, u.moves.progress);
        let dmg = match board.grid.resolve(h) {
            Some(idx) => {
                match board.grid.tiles[idx].damaging {
                    Some(d) => d.value,
                    None => 0,
                }
            },
            None => 0,
        };
        proof {
            if board.grid.contains_hex(h) {
                board.grid.lemma_idx_of(h);
            }
            assert(dmg == overlay_at(snap, enemy_hex(snap, u)));
        }
        let new_health = if u.enemy.health >= dmg {
            u.enemy.health - dmg
        } else {
            0
        };
        if new_health > 0 {
            survivors.push(
                EnemyUnit {
                    enemy: crate::components::Enemy { health: new_health, value: u.enemy.value },
                    moves: u.moves,
                },
            );
        } else {
            let value = u.enemy.value;
            board.budget.0 = if board.budget.0 > u32::MAX - value {
                u32::MAX
            } else {
                board.budget.0 + value
            };
            board.score.player_score = if board.score.player_score == u32::MAX {
                u32::MAX
            } else {
                board.score.player_score + 1
            };
        }
        e += 1;
    }
    proof {
        assert(es.take(ne as int) == es);
    }
    board.enemies = survivors;
    proof {
        assert forall|x: int| 0 <= x < board.enemies@.len() implies {
            let u = #[trigger] board.enemies@[x];
            &&& u.moves.spawn_index < 6
            &&& board.paths.n_routes() == 6
            &&& board.paths.route(u.moves.spawn_index as int).len() >= 1
            &&& u.moves.progress < board.paths.route(u.moves.spawn_index as int).len()
            &&& u.moves.lerp_milli <= 1000
            &&& u.moves.speed_milli <= 1000
            &&& u.enemy.health >= 1
        } by {
            lemma_after_damage_from(snap, es, x);
        }
        assert(board.enemies_wf());
        assert(board.wf());
    }
}

/// Every survivor of a damage tick descends from an enemy that entered it:
/// same route assignment, positive health no larger than before.
proof fn lemma_after_damage_from(b: TDBoard, es: Seq<EnemyUnit>, x: int)
    requires
        0 <= x < after_damage(b, es).len(),
    ensures
        exists|y: int|
            0 <= y < es.len() && #[trigger] es[y].moves == after_damage(b, es)[x].moves
                && after_damage(b, es)[x].enemy.health > 0 && after_damage(b, es)[x].enemy.health
                <= es[y].enemy.health,
    decreases es.len(),
{
    if es.len() > 0 {
        let rest = after_damage(b, es.drop_last());
        let u2 = damaged(b, es.last());
        if u2.enemy.health > 0 && x == after_damage(b, es).len() - 1 {
            assert(es[es.len() - 1].moves == after_damage(b, es)[x].moves);
        } else {
            lemma_after_damage_from(b, es.drop_last(), x);
            let y = choose|y: int|
                0 <= y < es.drop_last().len() && #[trigger] es.drop_last()[y].moves == rest[x].moves
                    && rest[x].enemy.health > 0 && rest[x].enemy.health <= es.drop_last()[y].enemy.health;
            assert(es[y].moves == after_damage(b, es)[x].moves);
        }
    }
}

/// The cell of a route at a progress index.
fn route_cell_at(p: &crate::board::TDPaths, k: usize, j: usize) -> (h: Hex)
    requires
        p.paths is Some,
        k < p.n_routes(),
        j < p.route(k as int).len(),
    ensures
        h == p.route(k as int)[j as int],
{
    match &p.paths {
        Some(v) => v[k][j],
        None => {
            proof {
                assert(false);
            }
            Hex { x: 0, y: 0 }
        },
    }
}

/// Interpolation gain for one movement tick, in thousandths of a route
/// segment, capped at one whole segment per tick.
pub open spec fn spec_gain(speed_milli: u32, base_milli: u32, dt_ms: u32) -> u32 {
    let g = (speed_milli * base_milli * dt_ms) / 1000000;
    if g > 1000 {
        1000u32
    } else {
        g as u32
    }
}

fn gain_at(speed_milli: u32, base_milli: u32, dt_ms: u32) -> (g: u32)
    requires
        speed_milli <= 1000,
        base_milli <= 1000000,
        dt_ms <= 1000000,
    ensures
        g == spec_gain(speed_milli, base_milli, dt_ms),
        g <= 1000,
{
    proof {
        assert((speed_milli as u64) * (base_milli as u64) <= 1000000000) by (nonlinear_arith)
            requires
                speed_milli <= 1000,
                base_milli <= 1000000,
        ;
        assert(((speed_milli as u64) * (base_milli as u64)) * (dt_ms as u64)
            <= 1000000000000000) by (nonlinear_arith)
            requires
                (speed_milli as u64) * (base_milli as u64) <= 1000000000,
                dt_ms <= 1000000,
        ;
    }
    let p: u64 = (speed_milli as u64) * (base_milli as u64) * (dt_ms as u64);
    let g = p / 1000000;
    if g > 1000 {
        1000
    } else {
        g as u32
    }
}

/// One enemy after one movement tick. `None` means it was removed; the
/// second component tells whether the removal was a breach of the goal. An
/// enemy whose cell is off the path and not the goal is stranded and
/// destroyed (defensive: on a well-formed board every route cell is
/// flagged). Otherwise its interpolation advances by the gain; crossing a
/// whole segment steps the progress index, and stepping past the final cell
/// is the breach.
pub open spec fn moved(b: TDBoard, u: EnemyUnit, g: u32) -> (Option<EnemyUnit>, bool) {
    let route = b.paths.route(u.moves.spawn_index as int);
    let cur = route[u.moves.progress as int];
    if !b.grid.contains_hex(cur) || (!b.grid.tile_at(cur).on_path && cur != (Hex { x: 0, y: 0 })) {
        (None::<EnemyUnit>, false)
    } else {
        let l2 = u.moves.lerp_milli + g;
        if l2 > 1000 {
            if u.moves.progress + 1 == route.len() {
                (None::<EnemyUnit>, true)
            } else {
                (
                    Some(
                        EnemyUnit {
                            enemy: u.enemy,
                            moves: crate::components::Moves {
                                progress: (u.moves.progress + 1) as usize,
                                lerp_milli: (l2 - 1000) as u32,
                                ..u.moves
                            },
                        },
                    ),
                    false,
                )
            }
        } else {
            (
                Some(
                    EnemyUnit {
                        enemy: u.enemy,
                        moves: crate::components::Moves { lerp_milli: l2 as u32, ..u.moves },
                    },
                ),
                false,
            )
        }
    }
}

/// The enemy list after one movement tick, order kept.
pub open spec fn after_move(b: TDBoard, es: Seq<EnemyUnit>, base_milli: u32, dt_ms: u32) -> Seq<
    EnemyUnit,
>
    decreases es.len(),
{
    if es.len() == 0 {
        es
    } else {
        let rest = after_move(b, es.drop_last(), base_milli, dt_ms);
        let u = es.last();
        let step = moved(b, u, spec_gain(u.moves.speed_milli, base_milli, dt_ms));
        match step.0 {
            Some(u2) => rest.push(u2),
            None => rest,
        }
    }
}

/// How many enemies a movement tick walks into the goal.
pub open spec fn breach_count(b: TDBoard, es: Seq<EnemyUnit>, base_milli: u32, dt_ms: u32) -> nat
    decreases es.len(),
{
    if es.len() == 0 {
        0
    } else {
        let u = es.last();
        let step = moved(b, u, spec_gain(u.moves.speed_milli, base_milli, dt_ms));
        breach_count(b, es.drop_last(), base_milli, dt_ms) + (if step.1 {
            1nat
        } else {
            0
        })
    }
}

/// Every enemy kept by a movement tick still addresses a cell of its route,
/// with the identity, health, and speed of an enemy that entered the tick.
proof fn lemma_after_move_from(b: TDBoard, es: Seq<EnemyUnit>, base_milli: u32, dt_ms: u32, x: int)
    requires
        forall|y: int|
            0 <= y < es.len() ==> {
                let u = #[trigger] es[y];
                &&& u.moves.spawn_index < 6
                &&& u.moves.progress < b.paths.route(u.moves.spawn_index as int).len()
                &&& u.moves.lerp_milli <= 1000
            },
        0 <= x < after_move(b, es, base_milli, dt_ms).len(),
    ensures
        exists|y: int|
            0 <= y < es.len() && {
                let u = #[trigger] es[y];
                let u2 = after_move(b, es, base_milli, dt_ms)[x];
                &&& u2.enemy == u.enemy
                &&& u2.moves.spawn_index == u.moves.spawn_index
                &&& u2.moves.speed_milli == u.moves.speed_milli
                &&& u2.moves.lerp_milli <= 1000
                &&& u2.moves.progress < b.paths.route(u.moves.spawn_index as int).len()
            },
    decreases es.len(),
{
    if es.len() > 0 {
        let rest = after_move(b, es.drop_last(), base_milli, dt_ms);
        let u = es.last();
        let step = moved(b, u, spec_gain(u.moves.speed_milli, base_milli, dt_ms));
        if step.0 is Some && x == after_move(b, es, base_milli, dt_ms).len() - 1 {
            assert(es[es.len() - 1] == u);
        } else {
            assert forall|y: int| 0 <= y < es.drop_last().len() implies {
                let u3 = #[trigger] es.drop_last()[y];
                &&& u3.moves.spawn_index < 6
                &&& u3.moves.progress < b.paths.route(u3.moves.spawn_index as int).len()
                &&& u3.moves.lerp_milli <= 1000
            } by {
                assert(es.drop_last()[y] == es[y]);
            }
            lemma_after_move_from(b, es.drop_last(), base_milli, dt_ms, x);
            let y = choose|y: int|
                0 <= y < es.drop_last().len() && {
                    let u3 = #[trigger] es.drop_last()[y];
                    let u2 = rest[x];
                    &&& u2.enemy == u3.enemy
                    &&& u2.moves.spawn_index == u3.moves.spawn_index
                    &&& u2.moves.speed_milli == u3.moves.speed_milli
                    &&& u2.moves.lerp_milli <= 1000
                    &&& u2.moves.progress < b.paths.route(u3.moves.spawn_index as int).len()
                };
            assert(es[y] == es.drop_last()[y]);
        }
    }
}

/// The movement-phase relation: everything `handle_enemy_movement`
/// promises. Every enemy advances per its speed; breaches are removed and
/// counted for the enemy score exactly once; health, budget, player score
/// and timers are untouched.
pub open spec fn move_applied(cfg: crate::config::GameConfig, pre: TDBoard, dt_ms: u32, post: TDBoard) -> bool {
    &&& post.wf()
    &&& post.grid == pre.grid
    &&& post.paths == pre.paths
    &&& post.towers == pre.towers
    &&& post.budget == pre.budget
    &&& post.timers == pre.timers
    &&& post.game_timer == pre.game_timer
    &&& post.enemies@ == after_move(pre, pre.enemies@, cfg.enemy_config.base_speed_milli, dt_ms)
    &&& post.score.player_score == pre.score.player_score
    &&& post.score.enemy_score == sat_add(
        pre.score.enemy_score,
        breach_count(pre, pre.enemies@, cfg.enemy_config.base_speed_milli, dt_ms),
    )
}

/// Advance every enemy along its route. An enemy that steps past the final
/// cell of its route breaches: it is removed and the enemy score counts it
/// exactly once; it cannot also die to damage this tick, because it is gone
/// before damage is applied. Movement never touches health, budget, or the
/// player score.
#[verifier::rlimit(100)]
pub fn handle_enemy_movement(
    board: &mut TDBoard,
    config: &crate::config::GameConfig,
    dt_ms: u32,
)
    requires
        old(board).wf(),
        config.valid(),
        dt_ms <= 1000000,
    ensures
        final(board).wf(),
        move_applied(*config, *old(board), dt_ms, *final(board)),
{
    let ghost snap = *old(board);
    let ghost es = board.enemies@;
    let base = config.enemy_config.base_speed_milli;
    let ne = board.enemies.len();
    let mut kept: Vec<EnemyUnit> = Vec::new();
    let mut e: usize = 0;
    while e < ne
        invariant
            e <= ne,
            ne == es.len(),
            board.enemies@ == es,
            board.grid == snap.grid,
            board.paths == snap.paths,
            board.towers == snap.towers,
            board.budget == snap.budget,
            board.timers == snap.timers,
            board.game_timer == snap.game_timer,
            board.score.player_score == snap.score.player_score,
            base == config.enemy_config.base_speed_milli,
            snap.wf(),
            kept@ == after_move(snap, es.take(e as int), base, dt_ms),
            board.score.enemy_score == sat_add(
                snap.score.enemy_score,
                breach_count(snap, es.take(e as int), base, dt_ms),
            ),
        decreases ne - e,
    {
        let u = board.enemies[e];
        proof {
            assert(es.take(e as int + 1).drop_last() == es.take(e as int));
            assert(es.take(e as int + 1).last() == es[e as int]);
            assert(snap.enemies_wf());
            assert(snap.enemies@[e as int] == u);
        }
        let g = gain_at(u.moves.speed_milli, base, dt_ms);
        let route_len = route_len_at(&board.paths, u.moves.spawn_index);
        let cur = route_cell_at(&board.paths, u.moves.spawn_index, u.moves.progress);
        let stranded = match board.grid.resolve(cur) {
            Some(idx) => !board.grid.tiles[idx].on_path && !(cur.x == 0 && cur.y == 0),
            None => true,
        };
        proof {
            if board.grid.contains_hex(cur) {
                board.grid.lemma_idx_of(cur);
            }
        }
        if stranded {
            // destroyed defensively, no credit to either side
        } else {
            let l2 = u.moves.lerp_milli + g;
            if l2 > 1000 {
                if u.moves.progress + 1 == route_len {
                    board.score.enemy_score = if board.score.enemy_score == u32::MAX {
                        u32::MAX
                    } else {
                        board.score.enemy_score + 1
                    };
                } else {
                    kept.push(
                        EnemyUnit {
                            enemy: u.enemy,
                            moves: crate::components::Moves {
                                progress: u.moves.progress + 1,
                                lerp_milli: l2 - 1000,
                                ..u.moves
                            },
                        },
                    );
                }
            } else {
                kept.push(
                    EnemyUnit {
                        enemy: u.enemy,
                        moves: crate::components::Moves { lerp_milli: l2, ..u.moves },
                    },
                );
            }
        }
        e += 1;
    }
    proof {
        assert(es.take(ne as int) == es);
    }
    board.enemies = kept;
    proof {
        lemma_movement_preserves_wf(snap, *board, base, dt_ms);
    }
}

/// A board whose enemies were replaced by the result of one movement tick
/// keeps the whole invariant.
#[verifier::rlimit(100)]
proof fn lemma_movement_preserves_wf(snap: TDBoard, b: TDBoard, base_milli: u32, dt_ms: u32)
    requires
        snap.wf(),
        b.grid == snap.grid,
        b.paths == snap.paths,
        b.towers == snap.towers,
        b.budget == snap.budget,
        b.timers == snap.timers,
        b.game_timer == snap.game_timer,
        b.enemies@ == after_move(snap, snap.enemies@, base_milli, dt_ms),
    ensures
        b.wf(),
{
    assert(b.grid.wf());
    assert(b.spawns_wf());
    assert(b.towers_wf());
    assert(b.overlay_wf());
    assert(b.timers_wf());
    if snap.paths.paths is None {
        assert(snap.enemies@.len() == 0);
        assert(b.enemies@.len() == 0);
        assert(b.paths_wf());
        assert(b.enemies_wf());
    } else {
        assert(b.paths_wf());
        assert forall|x: int| 0 <= x < b.enemies@.len() implies {
            let u = #[trigger] b.enemies@[x];
            &&& u.moves.spawn_index < 6
            &&& b.paths.n_routes() == 6
            &&& b.paths.route(u.moves.spawn_index as int).len() >= 1
            &&& u.moves.progress < b.paths.route(u.moves.spawn_index as int).len()
            &&& u.moves.lerp_milli <= 1000
            &&& u.moves.speed_milli <= 1000
            &&& u.enemy.health >= 1
        } by {
            assert(snap.enemies_wf());
            lemma_after_move_from(snap, snap.enemies@, base_milli, dt_ms, x);
        }
        assert(b.enemies_wf());
    }
}

/// Whether any spawn currently has a usable, nonempty route.
pub open spec fn any_usable_route(p: crate::board::TDPaths) -> bool {
    exists|k: int| 0 <= k < 6 && #[trigger] p.route(k).len() >= 1
}

/// The speed derived inversely from a drawn health value: full speed for the
/// weakest enemy, down to a tenth of it for the toughest.
pub open spec fn spec_speed(health: u32, min: u32, max: u32) -> u32 {
    let ratio0 = if max > min {
        ((health - min) * 1000) / (max - min)
    } else {
        0
    };
    let ratio = if ratio0 > 1000 {
        1000
    } else {
        ratio0
    };
    let s = 1000 - ratio;
    if s < 100 {
        100u32
    } else {
        s as u32
    }
}

/// The spawn-phase relation: everything `spawn_enemies` promises. Off the
/// tick boundary, or without a usable route, only the spawn timer moves; on
/// it one enemy is appended, drawn within the configured ranges, with the
/// speed derived from its health.
pub open spec fn spawn_applied(cfg: crate::config::GameConfig, pre: TDBoard, dt_ms: u32, post: TDBoard) -> bool {
    &&& post.wf()
    &&& post.grid == pre.grid
    &&& post.paths == pre.paths
    &&& post.towers == pre.towers
    &&& post.budget == pre.budget
    &&& post.score == pre.score
    &&& post.game_timer == pre.game_timer
    &&& post.timers == (TDTimers {
        enemy_spawn_rate: pre.timers.enemy_spawn_rate.spec_after(dt_ms),
        ..pre.timers
    })
    &&& {
        let fired = pre.timers.enemy_spawn_rate.spec_fires(dt_ms);
        &&& (!fired || !any_usable_route(pre.paths)) ==> post.enemies == pre.enemies
        &&& (fired && any_usable_route(pre.paths)) ==> {
            &&& post.enemies@.len() == pre.enemies@.len() + 1
            &&& post.enemies@.take(pre.enemies@.len() as int) == pre.enemies@
            &&& ({
                let u = post.enemies@.last();
                let min = cfg.enemy_config.min_health;
                let max = cfg.enemy_config.max_health;
                &&& u.moves.spawn_index < 6
                &&& pre.paths.route(u.moves.spawn_index as int).len() >= 1
                &&& u.moves.progress == 0
                &&& u.moves.lerp_milli == 0
                &&& min <= u.enemy.health <= max
                &&& u.enemy.value == u.enemy.health
                &&& u.moves.speed_milli == spec_speed(u.enemy.health, min, max)
            })
        }
    }
}

/// Spawn one enemy when the spawn timer fires and at least one spawn has a
/// usable route: the route is drawn at random among the usable ones, health
/// uniformly from the configured range, the kill reward equals the health,
/// and speed derives inversely from health. Without a usable route, or off
/// the tick boundary, only the timer moves.
#[verifier::rlimit(100)]
pub fn spawn_enemies(
    board: &mut TDBoard,
    config: &crate::config::GameConfig,
    dt_ms: u32,
    rng: &mut rand::rngs::StdRng,
)
    requires
        old(board).wf(),
        config.valid(),
        old(board).paths.paths is Some,
    ensures
        final(board).wf(),
        spawn_applied(*config, *old(board), dt_ms, *final(board)),
{
    let fired = board.timers.enemy_spawn_rate.tick(dt_ms);
    if !fired {
        return ;
    }
    let mut usable: Vec<usize> = Vec::new();
    let mut k: usize = 0;
    while k < 6
        invariant
            k <= 6,
            board.paths == old(board).paths,
            board.paths.paths is Some,
            board.paths.n_routes() == 6,
            forall|x: int|
                0 <= x < usable@.len() ==> (#[trigger] usable@[x]) < 6 && board.paths.route(
                    usable@[x] as int,
                ).len() >= 1,
            forall|kk: int|
                0 <= kk < k && #[trigger] board.paths.route(kk).len() >= 1 ==> usable@.contains(
                    kk as usize,
                ),
        decreases 6 - k,
    {
        let len = route_len_at(&board.paths, k);
        if len >= 1 {
            let ghost old_usable = usable@;
            usable.push(k);
            proof {
                assert(usable@[usable@.len() - 1] == k);
                assert forall|kk: int|
                    0 <= kk < k + 1 && #[trigger] board.paths.route(kk).len()
                    >= 1 implies usable@.contains(kk as usize) by {
                    if kk < k {
                        assert(old_usable.contains(kk as usize));
                        let x = choose|x: int|
                            0 <= x < old_usable.len() && old_usable[x] == kk as usize;
                        assert(usable@[x] == kk as usize);
                    }
                }
            }
        }
        k += 1;
    }
    if usable.len() == 0 {
        proof {
            if any_usable_route(board.paths) {
                let kk = choose|kk: int| 0 <= kk < 6 && #[trigger] board.paths.route(kk).len() >= 1;
                assert(usable@.contains(kk as usize));
            }
        }
        return ;
    }
    proof {
        assert(board.paths.route(usable@[0] as int).len() >= 1);
        assert(any_usable_route(board.paths));
    }
    let pick = crate::rng::rng_range(rng, 0, (usable.len() - 1) as u32);
    let si = usable[pick as usize];
    let min = config.enemy_config.min_health;
    let max = config.enemy_config.max_health;
    let health = crate::rng::rng_range(rng, min, max);
    let ratio0: u32 = if max > min {
        ((((health - min) as u64) * 1000) / ((max - min) as u64)) as u32
    } else {
        0
    };
    let ratio = if ratio0 > 1000 {
        1000
    } else {
        ratio0
    };
    let s = 1000 - ratio;
    let speed = if s < 100 {
        100
    } else {
        s
    };
    proof {
        assert(speed == spec_speed(health, min, max));
    }
    board.enemies.push(
        EnemyUnit {
            enemy: crate::components::Enemy { health, value: health },
            moves: crate::components::Moves {
                spawn_index: si,
                progress: 0,
                lerp_milli: 0,
                speed_milli: speed,
            },
        },
    );
    proof {
        assert(board.enemies@.take(old(board).enemies@.len() as int) == old(board).enemies@);
        assert(board.enemies_wf());
        assert(board.wf());
    }
}

} // verus!
