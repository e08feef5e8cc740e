//! The whole board: grid, spawn routes, towers, enemies, economy and
//! timers, with the invariant that ties them together.
use crate::components::{Budget, EnemyUnit, GameTimer, PlacedTower, ScoreBoard, TDTimers};
use crate::grid::HexGrid;
use crate::hex::{Hex, adjacent, hex_dist, is_ring_point, lemma_ring_point_dist,
    lemma_ring_point_distinct, on_edge, origin, ring_point_at};
use crate::rng::rng_range;
use vstd::prelude::*;

verus! {

/// The six spawn coordinates and, once computed, one route per spawn from
/// that spawn to the goal. The route set is only ever replaced wholesale.
pub struct TDPaths {
    pub spawns: Vec<Hex>,
    pub paths: Option<Vec<Vec<Hex>>>,
}

impl TDPaths {
    /// Number of routes currently computed.
    pub open spec fn n_routes(self) -> int {
        match self.paths {
            Some(v) => v@.len() as int,
            None => 0,
        }
    }

    /// The route assigned to spawn `k`; empty when that spawn is unusable.
    pub open spec fn route(self, k: int) -> Seq<Hex> {
        match self.paths {
            Some(v) => v@[k]@,
            None => Seq::empty(),
        }
    }

    /// Whether any computed route passes through `h`.
    pub open spec fn any_route_contains(self, h: Hex) -> bool {
        exists|k: int, j: int|
            0 <= k < self.n_routes() && 0 <= j < self.route(k).len() && #[trigger] self.route(k)[j]
                == h
    }
}

/// Whether a tower's coverage ring includes `h`.
pub open spec fn tower_covers(t: PlacedTower, h: Hex) -> bool {
    hex_dist(t.pos, h) <= t.tower.tower_type.spec_range()
}

/// Total damage per tick dealt to `h` by a set of towers: the sum of
/// `damage(type)` over every tower whose range ring includes `h`.
pub open spec fn coverage(ts: Seq<PlacedTower>, h: Hex) -> nat
    decreases ts.len(),
{
    if ts.len() == 0 {
        0
    } else {
        coverage(ts.drop_last(), h) + (if tower_covers(ts.last(), h) {
            ts.last().tower.tower_type.spec_damage() as nat
        } else {
            0
        })
    }
}

/// Adding one tower adds exactly its own contribution to every cell.
pub proof fn lemma_coverage_push(ts: Seq<PlacedTower>, t: PlacedTower, h: Hex)
    ensures
        coverage(ts.push(t), h) == coverage(ts, h) + (if tower_covers(t, h) {
            t.tower.tower_type.spec_damage() as nat
        } else {
            0
        }),
{
    assert(ts.push(t).drop_last() == ts);
    assert(ts.push(t).last() == t);
}

/// Coverage is bounded by three damage points per tower.
pub proof fn lemma_coverage_bound(ts: Seq<PlacedTower>, h: Hex)
    ensures
        coverage(ts, h) <= 3 * ts.len(),
    decreases ts.len(),
{
    if ts.len() > 0 {
        lemma_coverage_bound(ts.drop_last(), h);
    }
}

/// The complete board state. Everything the simulation mutates hangs off
/// this one struct; a restart discards it wholesale.
pub struct TDBoard {
    pub grid: HexGrid,
    pub paths: TDPaths,
    pub towers: Vec<PlacedTower>,
    pub enemies: Vec<EnemyUnit>,
    pub budget: Budget,
    pub score: ScoreBoard,
    pub timers: TDTimers,
    pub game_timer: GameTimer,
}

impl TDBoard {
    /// Exactly six spawn cells, all distinct, on the rim of the board, and
    /// the spawn flags mark exactly those cells.
    pub open spec fn spawns_wf(self) -> bool {
        &&& self.paths.spawns@.len() == 6
        &&& self.paths.spawns@.no_duplicates()
        &&& forall|j: int|
            0 <= j < 6 ==> hex_dist(origin(), #[trigger] self.paths.spawns@[j])
                == self.grid.radius
        &&& forall|j: int| 0 <= j < 6 ==> self.grid.contains_hex(#[trigger] self.paths.spawns@[j])
        &&& forall|k: int|
            0 <= k < self.grid.tiles@.len() ==> ((#[trigger] self.grid.tiles@[k]).is_spawn
                <==> self.paths.spawns@.contains(self.grid.coords@[k]))
    }

    /// Before the first recomputation nothing is derived from routes; after
    /// it, there are six routes, each nonempty one leads from its spawn to
    /// the goal in single steps over board cells, and the on-path flags mark
    /// exactly the union of the routes.
    pub open spec fn paths_wf(self) -> bool {
        match self.paths.paths {
            None => {
                &&& self.towers@.len() == 0
                &&& self.enemies@.len() == 0
                &&& forall|k: int|
                    0 <= k < self.grid.tiles@.len() ==> !(#[trigger] self.grid.tiles@[k]).on_path
            },
            Some(_) => {
                &&& self.paths.n_routes() == 6
                &&& forall|k: int|
                    0 <= k < 6 && #[trigger] self.paths.route(k).len() > 0 ==> self.paths.route(
                        k,
                    )[0] == self.paths.spawns@[k] && self.paths.route(k)[self.paths.route(k).len()
                        - 1] == origin()
                &&& forall|k: int, j: int|
                    0 <= k < 6 && 0 <= j < self.paths.route(k).len() ==> self.grid.contains_hex(
                        #[trigger] self.paths.route(k)[j],
                    )
                &&& forall|k: int, j: int|
                    0 <= k < 6 && 0 <= j < self.paths.route(k).len() - 1 ==> adjacent(
                        #[trigger] self.paths.route(k)[j],
                        self.paths.route(k)[j + 1],
                    )
                &&& forall|i: int|
                    0 <= i < self.grid.tiles@.len() ==> ((#[trigger] self.grid.tiles@[i]).on_path
                        <==> self.paths.any_route_contains(self.grid.coords@[i]))
            },
        }
    }

    /// Towers stand on distinct board cells, and the tower flags mark
    /// exactly those cells.
    pub open spec fn towers_linked(self) -> bool {
        &&& forall|t: int|
            0 <= t < self.towers@.len() ==> self.grid.contains_hex(
                (#[trigger] self.towers@[t]).pos,
            )
        &&& forall|t1: int, t2: int|
            0 <= t1 < t2 < self.towers@.len() ==> (#[trigger] self.towers@[t1]).pos != (
            #[trigger] self.towers@[t2]).pos
        &&& forall|i: int|
            0 <= i < self.grid.tiles@.len() ==> ((#[trigger] self.grid.tiles@[i]).has_tower
                <==> exists|t: int|
                0 <= t < self.towers@.len() && (#[trigger] self.towers@[t]).pos
                    == self.grid.coords@[i])
    }

    /// No tower stands on the goal or on a spawn; those flags never move.
    pub open spec fn towers_off_goal_spawn(self) -> bool {
        forall|i: int, t: int|
            0 <= i < self.grid.tiles@.len() && 0 <= t < self.towers@.len() && (
            #[trigger] self.towers@[t]).pos == self.grid.coords@[i] ==> {
                let tile = #[trigger] self.grid.tiles@[i];
                !tile.is_goal && !tile.is_spawn
            }
    }

    /// No tower stands on a cell of the current route set.
    pub open spec fn towers_off_route(self) -> bool {
        forall|i: int, t: int|
            0 <= i < self.grid.tiles@.len() && 0 <= t < self.towers@.len() && (
            #[trigger] self.towers@[t]).pos == self.grid.coords@[i] ==> !(
            #[trigger] self.grid.tiles@[i]).on_path
    }

    pub open spec fn towers_wf(self) -> bool {
        self.towers_linked() && self.towers_off_goal_spawn() && self.towers_off_route()
    }

    /// The damage overlay holds exactly the coverage sum on on-path cells
    /// with at least one covering tower, and nothing anywhere else.
    pub open spec fn overlay_wf(self) -> bool {
        forall|i: int|
            0 <= i < self.grid.tiles@.len() ==> {
                let tile = #[trigger] self.grid.tiles@[i];
                let c = coverage(self.towers@, self.grid.coords@[i]);
                match tile.damaging {
                    Some(d) => tile.on_path && c > 0 && d.value == c,
                    None => !(tile.on_path && c > 0),
                }
            }
    }

    /// Every live enemy walks a nonempty computed route and has not yet
    /// passed its end.
    pub open spec fn enemies_wf(self) -> bool {
        forall|e: int|
            0 <= e < self.enemies@.len() ==> {
                let u = #[trigger] self.enemies@[e];
                &&& u.moves.spawn_index < 6
                &&& self.paths.n_routes() == 6
                &&& self.paths.route(u.moves.spawn_index as int).len() >= 1
                &&& u.moves.progress < self.paths.route(u.moves.spawn_index as int).len()
                &&& u.moves.lerp_milli <= 1000
                &&& u.moves.speed_milli <= 1000
                &&& u.enemy.health >= 1
            }
    }

    /// Six computed routes, each a nonempty run from its spawn to the goal.
    pub open spec fn routes_connected(self) -> bool {
        &&& self.paths.paths is Some
        &&& forall|k: int| 0 <= k < 6 ==> (#[trigger] self.paths.route(k)).len() >= 1
        &&& forall|k: int|
            0 <= k < 6 ==> (#[trigger] self.paths.route(k))[0] == self.paths.spawns@[k]
                && self.paths.route(k)[self.paths.route(k).len() - 1] == origin()
    }

    pub open spec fn timers_wf(self) -> bool {
        &&& self.timers.enemy_spawn_rate.wf()
        &&& self.timers.enemy_spawn_rate.repeating
        &&& self.timers.tower_damaging_rate.wf()
        &&& self.timers.tower_damaging_rate.repeating
        &&& self.timers.game_over_timer.wf()
        &&& self.game_timer.0.wf()
    }

    /// The board invariant every operation preserves.
    pub open spec fn wf(self) -> bool {
        &&& self.grid.wf()
        &&& self.spawns_wf()
        &&& self.paths_wf()
        &&& self.towers_wf()
        &&& self.overlay_wf()
        &&& self.enemies_wf()
        &&& self.timers_wf()
    }
}

/// Tiles that agree on terrain, cursor, goal and spawn: everything a path
/// recomputation leaves alone.
pub open spec fn same_tile_core(a: crate::components::Tile, b: crate::components::Tile) -> bool {
    a.tile_type == b.tile_type && a.is_cursor == b.is_cursor && a.is_goal == b.is_goal
        && a.is_spawn == b.is_spawn
}

/// Tiles that agree on everything except the damage overlay entry.
pub open spec fn same_tile_but_damaging(a: crate::components::Tile, b: crate::components::Tile) -> bool {
    a.tile_type == b.tile_type && a.is_cursor == b.is_cursor && a.is_goal == b.is_goal
        && a.is_spawn == b.is_spawn && a.has_tower == b.has_tower && a.on_path == b.on_path
}

/// Tiles that agree on everything except the tower flag.
pub open spec fn same_tile_but_has_tower(a: crate::components::Tile, b: crate::components::Tile) -> bool {
    a.tile_type == b.tile_type && a.is_cursor == b.is_cursor && a.is_goal == b.is_goal
        && a.is_spawn == b.is_spawn && a.damaging == b.damaging && a.on_path == b.on_path
}

/// The towers that survive a path recomputation: exactly those whose cell
/// the new route set does not cross.
pub open spec fn kept_towers(ts: Seq<PlacedTower>, p: TDPaths) -> Seq<PlacedTower>
    decreases ts.len(),
{
    if ts.len() == 0 {
        ts
    } else {
        let rest = kept_towers(ts.drop_last(), p);
        if p.any_route_contains(ts.last().pos) {
            rest
        } else {
            rest.push(ts.last())
        }
    }
}

/// The enemies that survive a path recomputation: those whose progress index
/// still addresses a cell of their spawn's new route. The rest are stranded
/// by the topology change and are destroyed without credit to either side.
pub open spec fn kept_enemies(es: Seq<EnemyUnit>, p: TDPaths) -> Seq<EnemyUnit>
    decreases es.len(),
{
    if es.len() == 0 {
        es
    } else {
        let rest = kept_enemies(es.drop_last(), p);
        let u = es.last();
        if u.moves.spawn_index < 6 && u.moves.progress < p.route(u.moves.spawn_index as int).len() {
            rest.push(u)
        } else {
            rest
        }
    }
}

/// A list of distinct coordinates drawn from the board cannot outnumber the
/// board's cells.
pub proof fn lemma_positions_bound(ps: Seq<Hex>, cs: Seq<Hex>)
    requires
        ps.no_duplicates(),
        forall|k: int| 0 <= k < ps.len() ==> cs.contains(#[trigger] ps[k]),
    ensures
        ps.len() <= cs.len(),
{
    broadcast use vstd::seq_lib::group_seq_lib_default, vstd::set_lib::group_set_lib_default,
        vstd::set::group_set_axioms;

    ps.unique_seq_to_set();
    cs.lemma_cardinality_of_set();
    assert forall|h: Hex| ps.to_set().contains(h) implies cs.to_set().contains(h) by {
        assert(ps.contains(h));
        assert(cs.contains(h));
    }
    assert(ps.to_set().subset_of(cs.to_set()));
    vstd::set_lib::lemma_len_subset(ps.to_set(), cs.to_set());
}

/// The towers of a well-formed board number at most its cells, so every
/// coverage sum stays far below the integer limit.
pub proof fn lemma_tower_count_bound(b: TDBoard)
    requires
        b.grid.wf(),
        b.towers_wf(),
    ensures
        b.towers@.len() <= b.grid.coords@.len(),
{
    let ps = Seq::new(b.towers@.len(), |t: int| b.towers@[t].pos);
    assert forall|k1: int, k2: int| 0 <= k1 < k2 < ps.len() implies ps[k1] != ps[k2] by {
        assert(b.towers@[k1].pos != b.towers@[k2].pos);
    }
    assert(ps.no_duplicates());
    assert forall|k: int| 0 <= k < ps.len() implies b.grid.coords@.contains(#[trigger] ps[k]) by {
        assert(b.grid.contains_hex(b.towers@[k].pos));
    }
    lemma_positions_bound(ps, b.grid.coords@);
}

/// Two boards that agree on everything except tile terrain share the
/// invariant: no flag, route, tower, overlay entry, enemy, or timer differs.
#[verifier::rlimit(100)]
pub proof fn lemma_wf_same_flags(a: TDBoard, b: TDBoard)
    requires
        a.wf(),
        b.grid.radius == a.grid.radius,
        b.grid.coords@ == a.grid.coords@,
        b.grid.tiles@.len() == a.grid.tiles@.len(),
        forall|k: int|
            0 <= k < a.grid.tiles@.len() ==> {
                let tn = #[trigger] b.grid.tiles@[k];
                let to = a.grid.tiles@[k];
                tn.is_goal == to.is_goal && tn.is_spawn == to.is_spawn && tn.on_path == to.on_path
                    && tn.has_tower == to.has_tower && tn.damaging == to.damaging
            },
        b.paths == a.paths,
        b.towers == a.towers,
        b.enemies == a.enemies,
        b.timers == a.timers,
        b.game_timer == a.game_timer,
    ensures
        b.wf(),
{
    assert(b.grid.wf());
    assert(b.spawns_wf());
    assert(b.paths_wf());
    assert forall|i: int| 0 <= i < b.grid.tiles@.len() implies {
        let tile = #[trigger] b.grid.tiles@[i];
        let c = coverage(b.towers@, b.grid.coords@[i]);
        match tile.damaging {
            Some(d) => tile.on_path && c > 0 && d.value == c,
            None => !(tile.on_path && c > 0),
        }
    } by {
        assert(b.grid.coords@[i] == a.grid.coords@[i]);
        assert(coverage(b.towers@, b.grid.coords@[i]) == coverage(a.towers@, a.grid.coords@[i]));
        assert(a.grid.tiles@[i].damaging == b.grid.tiles@[i].damaging);
    }
    assert(b.overlay_wf());
    assert(b.towers_wf());
    assert(b.enemies_wf());
    assert(b.timers_wf());
}

/// Pick the six spawn cells for a new board: one cell at random on each of
/// the six rim edges, one per diagonal direction. The edges chosen are
/// half-open, so the six picks are always distinct.
pub(crate) fn pick_spawn_points(radius: u32, rng: &mut rand::rngs::StdRng) -> (r: Vec<Hex>)
    requires
        1 <= radius <= 64,
    ensures
        r@.len() == 6,
        r@.no_duplicates(),
        forall|j: int| 0 <= j < 6 ==> hex_dist(origin(), #[trigger] r@[j]) == radius,
        forall|j: int| 0 <= j < 6 ==> on_edge(#[trigger] r@[j], radius as int, j),
{
    let mut out: Vec<Hex> = Vec::new();
    let mut d: u32 = 0;
    while d < 6
        invariant
            d <= 6,
            out@.len() == d,
            1 <= radius <= 64,
            out@.no_duplicates(),
            forall|j: int| 0 <= j < d ==> hex_dist(origin(), #[trigger] out@[j]) == radius,
            forall|j: int| 0 <= j < d ==> on_edge(#[trigger] out@[j], radius as int, j),
        decreases 6 - d,
    {
        let i = rng_range(rng, 0, radius - 1);
        let p = ring_point_at(radius, d, i);
        proof {
            lemma_ring_point_dist(p, radius as int, d as int, i as int);
            assert forall|j: int| 0 <= j < d implies out@[j] != p by {
                assert(on_edge(out@[j], radius as int, j));
                let ii = choose|ii: int|
                    0 <= ii < radius && is_ring_point(out@[j], radius as int, j, ii);
                lemma_ring_point_distinct(
                    out@[j],
                    p,
                    radius as int,
                    j,
                    ii,
                    radius as int,
                    d as int,
                    i as int,
                );
            }
        }
        let ghost old_out = out@;
        out.push(p);
        proof {
            assert forall|k1: int, k2: int|
                0 <= k1 < k2 < out@.len() implies out@[k1] != out@[k2] by {
                if k2 == out@.len() - 1 {
                    assert(out@[k1] == old_out[k1]);
                }
            }
            assert(is_ring_point(p, radius as int, d as int, i as int));
            assert(on_edge(p, radius as int, d as int));
        }
        d += 1;
    }
    out
}

} // verus!
