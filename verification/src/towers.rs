//! Tower placement, eviction after path changes, and the damage-overlay
//! aggregator.
use crate::board::{
    TDBoard, coverage, kept_towers, lemma_coverage_bound, lemma_coverage_push,
    lemma_tower_count_bound, same_tile_but_damaging, same_tile_but_has_tower, same_tile_core,
    tower_covers,
};
use crate::components::{Damaging, PlacedTower, Tile, Tower, TowerType};
use crate::config::GameConfig;
use crate::hex::{Hex, distance, hex_dist, origin};
use vstd::prelude::*;

verus! {

/// Any cell within the board radius has small coordinates.
pub proof fn lemma_coord_small(h: Hex, r: int)
    requires
        hex_dist(origin(), h) <= r,
        0 <= r <= 64,
    ensures
        -200 <= h.x <= 200,
        -200 <= h.y <= 200,
{
}

/// The accumulated damage a set of towers deals to one cell.
fn coverage_at(ts: &Vec<PlacedTower>, h: Hex) -> (c: u32)
    requires
        ts@.len() <= 25000,
        -200 <= h.x <= 200,
        -200 <= h.y <= 200,
        forall|t: int|
            0 <= t < ts@.len() ==> -200 <= (#[trigger] ts@[t]).pos.x <= 200 && -200 <= ts@[t].pos.y
                <= 200,
    ensures
        c == coverage(ts@, h),
{
    let n = ts.len();
    let mut c: u32 = 0;
    let mut t: usize = 0;
    while t < n
        invariant
            t <= n,
            n == ts@.len(),
            c == coverage(ts@.take(t as int), h),
            c <= 3 * t,
        decreases n - t,
    {
        let tw = ts[t];
        proof {
            assert(ts@.take(t as int + 1).drop_last() == ts@.take(t as int));
            assert(ts@.take(t as int + 1).last() == ts@[t as int]);
        }
        let d = distance(tw.pos, h);
        if d <= tw.tower.tower_type.range() {
            c = c + tw.tower.tower_type.damage();
        }
        t += 1;
    }
    proof {
        assert(ts@.take(n as int) == ts@);
    }
    c
}

/// Rebuild the damage overlay from scratch: every on-path cell gets the sum
/// of the damage of all towers covering it, every other cell sheds its
/// entry. Nothing but the overlay changes.
#[verifier::rlimit(100)]
pub fn refresh_damaging_tiles(board: &mut TDBoard)
    requires
        old(board).grid.wf(),
        old(board).spawns_wf(),
        old(board).paths_wf(),
        old(board).towers_wf(),
        old(board).enemies_wf(),
        old(board).timers_wf(),
    ensures
        final(board).wf(),
        final(board).grid.coords == old(board).grid.coords,
        final(board).grid.radius == old(board).grid.radius,
        final(board).grid.tiles@.len() == old(board).grid.tiles@.len(),
        forall|k: int|
            0 <= k < old(board).grid.tiles@.len() ==> same_tile_but_damaging(
                #[trigger] final(board).grid.tiles@[k],
                old(board).grid.tiles@[k],
            ),
        final(board).paths == old(board).paths,
        final(board).towers == old(board).towers,
        final(board).enemies == old(board).enemies,
        final(board).budget == old(board).budget,
        final(board).score == old(board).score,
        final(board).timers == old(board).timers,
        final(board).game_timer == old(board).game_timer,
{
    proof {
        lemma_tower_count_bound(*board);
    }
    let n = board.grid.tiles.len();
    let mut i: usize = 0;
    while i < n
        invariant
            i <= n,
            n == board.grid.tiles@.len(),
            board.grid.coords == old(board).grid.coords,
            board.grid.radius == old(board).grid.radius,
            board.grid.tiles@.len() == old(board).grid.tiles@.len(),
            board.towers == old(board).towers,
            board.paths == old(board).paths,
            board.enemies == old(board).enemies,
            board.budget == old(board).budget,
            board.score == old(board).score,
            board.timers == old(board).timers,
            board.game_timer == old(board).game_timer,
            board.towers@.len() <= 25000,
            forall|k: int|
                0 <= k < n ==> same_tile_but_damaging(
                    #[trigger] board.grid.tiles@[k],
                    old(board).grid.tiles@[k],
                ),
            forall|k: int|
                i <= k < n ==> (#[trigger] board.grid.tiles@[k]).damaging == old(
                    board,
                ).grid.tiles@[k].damaging,
            forall|k: int|
                0 <= k < i ==> {
                    let tile = #[trigger] board.grid.tiles@[k];
                    let c = coverage(board.towers@, board.grid.coords@[k]);
                    match tile.damaging {
                        Some(d) => tile.on_path && c > 0 && d.value == c,
                        None => !(tile.on_path && c > 0),
                    }
                },
        decreases n - i,
    {
        let on_path = board.grid.tiles[i].on_path;
        if on_path {
            let h = board.grid.coords[i];
            proof {
                lemma_coord_small(h, board.grid.radius as int);
                assert forall|t: int|
                    0 <= t < board.towers@.len() implies -200 <= (
                #[trigger] board.towers@[t]).pos.x <= 200 && -200 <= board.towers@[t].pos.y
                    <= 200 by {
                    board.grid.lemma_idx_of(board.towers@[t].pos);
                    lemma_coord_small(board.towers@[t].pos, board.grid.radius as int);
                }
            }
            let c = coverage_at(&board.towers, h);
            if c > 0 {
                board.grid.tiles[i].damaging = Some(Damaging { value: c });
            } else {
                board.grid.tiles[i].damaging = None;
            }
        } else {
            board.grid.tiles[i].damaging = None;
        }
        i += 1;
    }
    proof {
        assert(board.grid.wf());
        assert(board.spawns_wf());
        assert(board.paths_wf());
        assert(board.towers_wf());
        assert(board.overlay_wf());
        assert(board.enemies_wf());
        assert(board.timers_wf());
    }
}

/// Destroy every tower whose cell the new route set crosses, clearing the
/// tower flag of the evicted cells. Path corridors are tower-exclusive.
#[verifier::rlimit(100)]
pub fn remove_towers_on_path(board: &mut TDBoard)
    requires
        old(board).grid.wf(),
        old(board).spawns_wf(),
        old(board).paths_wf(),
        old(board).towers_linked(),
        old(board).towers_off_goal_spawn(),
        old(board).paths.paths is Some,
        old(board).timers_wf(),
    ensures
        final(board).grid.coords == old(board).grid.coords,
        final(board).grid.radius == old(board).grid.radius,
        final(board).grid.tiles@.len() == old(board).grid.tiles@.len(),
        forall|k: int|
            0 <= k < old(board).grid.tiles@.len() ==> same_tile_but_has_tower(
                #[trigger] final(board).grid.tiles@[k],
                old(board).grid.tiles@[k],
            ),
        final(board).towers@ == kept_towers(old(board).towers@, old(board).paths),
        final(board).paths == old(board).paths,
        final(board).enemies == old(board).enemies,
        final(board).budget == old(board).budget,
        final(board).score == old(board).score,
        final(board).timers == old(board).timers,
        final(board).game_timer == old(board).game_timer,
        final(board).grid.wf(),
        final(board).spawns_wf(),
        final(board).paths_wf(),
        final(board).towers_linked(),
        final(board).towers_off_goal_spawn(),
        final(board).towers_off_route(),
        final(board).timers_wf(),
{
    let ghost ts = old(board).towers@;
    let ghost p = old(board).paths;
    let mut kept: Vec<PlacedTower> = Vec::new();
    let n = board.towers.len();
    let mut t: usize = 0;
    while t < n
        invariant
            t <= n,
            n == ts.len(),
            board.towers@ == ts,
            board.paths == old(board).paths,
            board.grid.coords == old(board).grid.coords,
            board.grid.radius == old(board).grid.radius,
            board.grid.tiles@.len() == old(board).grid.tiles@.len(),
            board.enemies == old(board).enemies,
            board.budget == old(board).budget,
            board.score == old(board).score,
            board.timers == old(board).timers,
            board.game_timer == old(board).game_timer,
            forall|k: int|
                0 <= k < old(board).grid.tiles@.len() ==> same_tile_but_has_tower(
                    #[trigger] board.grid.tiles@[k],
                    old(board).grid.tiles@[k],
                ),
            forall|k: int|
                0 <= k < old(board).grid.tiles@.len() ==> ((
                #[trigger] board.grid.tiles@[k]).on_path == old(board).grid.tiles@[k].on_path),
            kept@ == kept_towers(ts.take(t as int), p),
            forall|k: int|
                0 <= k < kept@.len() ==> exists|j: int|
                    0 <= j < t && #[trigger] kept@[k] == ts[j],
            forall|k: int|
                0 <= k < kept@.len() ==> !p.any_route_contains((#[trigger] kept@[k]).pos),
            forall|k1: int, k2: int|
                0 <= k1 < k2 < kept@.len() ==> (#[trigger] kept@[k1]).pos != (
                #[trigger] kept@[k2]).pos,
            forall|i: int|
                0 <= i < board.grid.tiles@.len() ==> ((#[trigger] board.grid.tiles@[i]).has_tower
                    <==> (exists|k: int|
                    0 <= k < kept@.len() && (#[trigger] kept@[k]).pos == board.grid.coords@[i]) || (
                exists|k: int|
                    t <= k < n && (#[trigger] ts[k]).pos == board.grid.coords@[i])),
        decreases n - t,
    {
        let tw = board.towers[t];
        let idx = match board.grid.resolve(tw.pos) {
            Some(idx) => idx,
            None => {
                proof {
                    assert(board.grid.contains_hex(ts[t as int].pos));
                    assert(false);
                }
                0
            },
        };
        proof {
            board.grid.lemma_idx_of(tw.pos);
            assert(ts.take(t as int + 1).drop_last() == ts.take(t as int));
            assert(ts.take(t as int + 1).last() == ts[t as int]);
        }
        let on_path = board.grid.tiles[idx].on_path;
        proof {
            assert(board.grid.tiles@[idx as int].on_path == old(board).grid.tiles@[idx as int].on_path);
            assert(on_path == p.any_route_contains(tw.pos));
        }
        if on_path {
            board.grid.tiles[idx].has_tower = false;
            proof {
                assert forall|i: int|
                    0 <= i < board.grid.tiles@.len() implies ((
                #[trigger] board.grid.tiles@[i]).has_tower <==> (exists|k: int|
                    0 <= k < kept@.len() && (#[trigger] kept@[k]).pos == board.grid.coords@[i]) || (
                exists|k: int|
                    t + 1 <= k < n && (#[trigger] ts[k]).pos == board.grid.coords@[i])) by {
                    if i == idx {
                        assert forall|k: int|
                            0 <= k < kept@.len() implies (#[trigger] kept@[k]).pos
                            != board.grid.coords@[i] by {
                            let j = choose|j: int| 0 <= j < t && kept@[k] == ts[j];
                            assert(ts[j].pos != ts[t as int].pos);
                        }
                        assert forall|k: int| t + 1 <= k < n implies (#[trigger] ts[k]).pos
                            != board.grid.coords@[i] by {
                            assert(ts[k].pos != ts[t as int].pos);
                        }
                    } else {
                        if board.grid.tiles@[i].has_tower {
                            let k = choose|k: int|
                                (0 <= k < kept@.len() && kept@[k].pos == board.grid.coords@[i]) || (
                                t <= k < n && ts[k].pos == board.grid.coords@[i]);
                            if t <= k < n && ts[k].pos == board.grid.coords@[i] {
                                board.grid.lemma_idx_of(ts[k].pos);
                                assert(k != t);
                            }
                        }
                    }
                }
            }
        } else {
            let ghost old_kept = kept@;
            kept.push(tw);
            proof {
                assert(kept@ == old_kept.push(ts[t as int]));
                assert(!p.any_route_contains(ts[t as int].pos));
                assert forall|k1: int, k2: int|
                    0 <= k1 < k2 < kept@.len() implies (#[trigger] kept@[k1]).pos != (
                #[trigger] kept@[k2]).pos by {
                    if k2 == kept@.len() - 1 {
                        assert(kept@[k1] == old_kept[k1]);
                        let j = choose|j: int| 0 <= j < t && old_kept[k1] == ts[j];
                        assert(ts[j].pos != ts[t as int].pos);
                    }
                }
                assert forall|i: int|
                    0 <= i < board.grid.tiles@.len() implies ((
                #[trigger] board.grid.tiles@[i]).has_tower <==> (exists|k: int|
                    0 <= k < kept@.len() && (#[trigger] kept@[k]).pos == board.grid.coords@[i]) || (
                exists|k: int|
                    t + 1 <= k < n && (#[trigger] ts[k]).pos == board.grid.coords@[i])) by {
                    if board.grid.tiles@[i].has_tower {
                        let k = choose|k: int|
                            (0 <= k < old_kept.len() && old_kept[k].pos == board.grid.coords@[i])
                                || (t <= k < n && ts[k].pos == board.grid.coords@[i]);
                        if 0 <= k < old_kept.len() && old_kept[k].pos == board.grid.coords@[i] {
                            assert(kept@[k] == old_kept[k]);
                        } else {
                            if k == t {
                                assert(kept@[kept@.len() - 1] == ts[t as int]);
                            }
                        }
                    } else {
                        assert forall|k: int|
                            0 <= k < kept@.len() implies (#[trigger] kept@[k]).pos
                            != board.grid.coords@[i] by {
                            if k < old_kept.len() {
                                assert(kept@[k] == old_kept[k]);
                            }
                        }
                    }
                }
            }
        }
        t += 1;
    }
    proof {
        assert(ts.take(n as int) == ts);
    }
    board.towers = kept;
    proof {
        assert forall|t1: int| 0 <= t1 < board.towers@.len() implies board.grid.contains_hex(
            (#[trigger] board.towers@[t1]).pos,
        ) by {
            let j = choose|j: int| 0 <= j < n && board.towers@[t1] == ts[j];
            assert(old(board).grid.contains_hex(ts[j].pos));
        }
        assert(board.towers_linked());
        assert forall|i: int, t1: int|
            0 <= i < board.grid.tiles@.len() && 0 <= t1 < board.towers@.len() && (
        #[trigger] board.towers@[t1]).pos == board.grid.coords@[i] implies !(
        #[trigger] board.grid.tiles@[i]).on_path by {
            assert(!p.any_route_contains(board.towers@[t1].pos));
        }
        assert(board.towers_off_route());
        assert forall|i: int, t1: int|
            0 <= i < board.grid.tiles@.len() && 0 <= t1 < board.towers@.len() && (
        #[trigger] board.towers@[t1]).pos == board.grid.coords@[i] implies {
            let tile = #[trigger] board.grid.tiles@[i];
            !tile.is_goal && !tile.is_spawn
        } by {
            let j = choose|j: int| 0 <= j < n && board.towers@[t1] == ts[j];
        }
        assert(board.towers_off_goal_spawn());
        assert(board.grid.wf());
        assert(board.spawns_wf());
        assert(board.paths_wf());
        assert(board.timers_wf());
    }
}

/// Fold one newly placed tower into the overlay: every on-path cell within
/// its range ring gains its damage; no other cell changes.
#[verifier::rlimit(100)]
fn handle_new_towers(board: &mut TDBoard, placed: PlacedTower)
    requires
        old(board).grid.wf(),
        old(board).spawns_wf(),
        old(board).paths_wf(),
        old(board).towers_linked(),
        old(board).towers_off_goal_spawn(),
        old(board).towers_off_route(),
        old(board).enemies_wf(),
        old(board).timers_wf(),
        old(board).towers@.len() >= 1,
        old(board).towers@.last() == placed,
        forall|i: int|
            0 <= i < old(board).grid.tiles@.len() ==> {
                let tile = #[trigger] old(board).grid.tiles@[i];
                let c = coverage(old(board).towers@.drop_last(), old(board).grid.coords@[i]);
                match tile.damaging {
                    Some(d) => tile.on_path && c > 0 && d.value == c,
                    None => !(tile.on_path && c > 0),
                }
            },
    ensures
        final(board).wf(),
        final(board).grid.coords == old(board).grid.coords,
        final(board).grid.radius == old(board).grid.radius,
        final(board).grid.tiles@.len() == old(board).grid.tiles@.len(),
        forall|k: int|
            0 <= k < old(board).grid.tiles@.len() ==> same_tile_but_damaging(
                #[trigger] final(board).grid.tiles@[k],
                old(board).grid.tiles@[k],
            ),
        final(board).paths == old(board).paths,
        final(board).towers == old(board).towers,
        final(board).enemies == old(board).enemies,
        final(board).budget == old(board).budget,
        final(board).score == old(board).score,
        final(board).timers == old(board).timers,
        final(board).game_timer == old(board).game_timer,
{
    proof {
        lemma_tower_count_bound(*board);
    }
    let n = board.grid.tiles.len();
    let mut i: usize = 0;
    while i < n
        invariant
            i <= n,
            n == board.grid.tiles@.len(),
            board.grid.coords == old(board).grid.coords,
            board.grid.radius == old(board).grid.radius,
            board.grid.tiles@.len() == old(board).grid.tiles@.len(),
            board.towers == old(board).towers,
            board.paths == old(board).paths,
            board.enemies == old(board).enemies,
            board.budget == old(board).budget,
            board.score == old(board).score,
            board.timers == old(board).timers,
            board.game_timer == old(board).game_timer,
            board.towers@.len() <= 25000,
            forall|k: int|
                0 <= k < n ==> same_tile_but_damaging(
                    #[trigger] board.grid.tiles@[k],
                    old(board).grid.tiles@[k],
                ),
            forall|k: int|
                i <= k < n ==> (#[trigger] board.grid.tiles@[k]).damaging == old(
                    board,
                ).grid.tiles@[k].damaging,
            forall|k: int|
                0 <= k < i ==> {
                    let tile = #[trigger] board.grid.tiles@[k];
                    let c = coverage(board.towers@, board.grid.coords@[k]);
                    match tile.damaging {
                        Some(d) => tile.on_path && c > 0 && d.value == c,
                        None => !(tile.on_path && c > 0),
                    }
                },
        decreases n - i,
    {
        let tile = board.grid.tiles[i];
        let h = board.grid.coords[i];
        proof {
            lemma_coord_small(h, board.grid.radius as int);
            board.grid.lemma_idx_of(board.towers@[board.towers@.len() - 1].pos);
            lemma_coord_small(placed.pos, board.grid.radius as int);
            lemma_coverage_bound(board.towers@.drop_last(), h);
            assert(coverage(board.towers@, h) == coverage(board.towers@.drop_last(), h) + (
            if tower_covers(placed, h) {
                placed.tower.tower_type.spec_damage() as nat
            } else {
                0
            }));
        }
        if tile.on_path {
            let d = distance(placed.pos, h);
            if d <= placed.tower.tower_type.range() {
                let add = placed.tower.tower_type.damage();
                match tile.damaging {
                    Some(dmg) => {
                        board.grid.tiles[i].damaging = Some(
                            Damaging { value: dmg.value + add },
                        );
                    },
                    None => {
                        board.grid.tiles[i].damaging = Some(Damaging { value: add });
                    },
                }
            }
        }
        i += 1;
    }
    proof {
        assert(board.grid.wf());
        assert(board.spawns_wf());
        assert(board.paths_wf());
        assert(board.towers_wf());
        assert(board.overlay_wf());
        assert(board.enemies_wf());
        assert(board.timers_wf());
    }
}

/// The placement relation: everything `spawn_tower` promises of the board
/// it leaves behind. A cell off the board, occupied, on the path, the goal,
/// or a spawn is refused, as is a price above the budget; a refusal leaves
/// the board bit-identical. A purchase debits exactly the configured cost,
/// appends exactly the new tower, marks its cell, and touches nothing else
/// of the board: terrain, routes, enemies, scores and timers stay; the
/// overlay gains exactly the new tower's contribution, pinned through the
/// invariant.
pub open spec fn place_applied(
    cfg: GameConfig,
    pre: TDBoard,
    tower_type: TowerType,
    hex_pos: Hex,
    post: TDBoard,
    placed: bool,
) -> bool {
    let ok_tile = pre.grid.contains_hex(hex_pos) && {
        let t = pre.grid.tiles@[pre.grid.idx_of(hex_pos)];
        !t.has_tower && !t.on_path && !t.is_goal && !t.is_spawn
    };
    let cost = cfg.tower_config.spec_cost(tower_type);
    &&& post.wf()
    &&& placed == (ok_tile && cost <= pre.budget.0)
    &&& !placed ==> post == pre
    &&& placed ==> {
        &&& post.budget.0 == pre.budget.0 - cost
        &&& post.towers@ == pre.towers@.push(
            PlacedTower { tower: Tower { tower_type, cost }, pos: hex_pos },
        )
        &&& post.paths == pre.paths
        &&& post.enemies == pre.enemies
        &&& post.score == pre.score
        &&& post.timers == pre.timers
        &&& post.game_timer == pre.game_timer
        &&& post.grid.coords == pre.grid.coords
        &&& post.grid.radius == pre.grid.radius
        &&& post.grid.tiles@.len() == pre.grid.tiles@.len()
        &&& forall|k: int|
            0 <= k < pre.grid.tiles@.len() ==> same_tile_core(
                #[trigger] post.grid.tiles@[k],
                pre.grid.tiles@[k],
            )
    }
}

/// Handle a tower-purchase intent. A cell that is off the board, occupied,
/// on the path, the goal, or a spawn is refused, as is a price above the
/// budget; a refusal changes nothing. A purchase debits exactly the
/// configured cost, so the budget never goes below zero.
#[verifier::rlimit(100)]
pub fn spawn_tower(
    board: &mut TDBoard,
    config: &GameConfig,
    tower_type: TowerType,
    hex_pos: Hex,
) -> (placed: bool)
    requires
        old(board).wf(),
        old(board).paths.paths is Some,
    ensures
        final(board).wf(),
        final(board).grid.radius == old(board).grid.radius,
        place_applied(*config, *old(board), tower_type, hex_pos, *final(board), placed),
{
    let idx = match board.grid.resolve(hex_pos) {
        None => {
            return false;
        },
        Some(i) => i,
    };
    let t = board.grid.tiles[idx];
    if t.has_tower || t.on_path || t.is_goal || t.is_spawn {
        return false;
    }
    let cost = config.tower_config.cost(tower_type);
    if cost > board.budget.0 {
        return false;
    }
    board.budget.0 = board.budget.0 - cost;
    let new_tower = PlacedTower { tower: Tower { tower_type, cost }, pos: hex_pos };
    let ghost old_towers = board.towers@;
    board.towers.push(new_tower);
    board.grid.tiles[idx].has_tower = true;
    proof {
        board.grid.lemma_idx_of(hex_pos);
        assert forall|i: int|
            0 <= i < board.grid.tiles@.len() implies ((#[trigger] board.grid.tiles@[i]).has_tower
            <==> exists|tt: int|
            0 <= tt < board.towers@.len() && (#[trigger] board.towers@[tt]).pos
                == board.grid.coords@[i]) by {
            if i == idx {
                assert(board.towers@[board.towers@.len() - 1].pos == board.grid.coords@[i]);
            } else {
                if old(board).grid.tiles@[i].has_tower {
                    let tt = choose|tt: int|
                        0 <= tt < old_towers.len() && old_towers[tt].pos
                            == board.grid.coords@[i];
                    assert(board.towers@[tt].pos == board.grid.coords@[i]);
                } else {
                    assert forall|tt: int|
                        0 <= tt < board.towers@.len() implies (#[trigger] board.towers@[tt]).pos
                        != board.grid.coords@[i] by {
                        if tt < old_towers.len() {
                            assert(board.towers@[tt] == old_towers[tt]);
                        } else {
                            board.grid.lemma_idx_of(board.grid.coords@[i]);
                        }
                    }
                }
            }
        }
        assert forall|t1: int, t2: int|
            0 <= t1 < t2 < board.towers@.len() implies (#[trigger] board.towers@[t1]).pos != (
        #[trigger] board.towers@[t2]).pos by {
            if t2 == board.towers@.len() - 1 {
                assert(board.towers@[t1] == old_towers[t1]);
                if old_towers[t1].pos == hex_pos {
                    board.grid.lemma_idx_of(hex_pos);
                    assert(old(board).grid.tiles@[idx as int].has_tower);
                }
            }
        }
        assert(board.towers_linked());
        assert(board.towers_off_goal_spawn());
        assert(board.towers_off_route());
        assert forall|i: int|
            0 <= i < board.grid.tiles@.len() implies {
            let tile = #[trigger] board.grid.tiles@[i];
            let c = coverage(board.towers@.drop_last(), board.grid.coords@[i]);
            match tile.damaging {
                Some(d) => tile.on_path && c > 0 && d.value == c,
                None => !(tile.on_path && c > 0),
            }
        } by {
            assert(board.towers@.drop_last() == old_towers);
            if i != idx {
                assert(board.grid.tiles@[i] == old(board).grid.tiles@[i]);
            }
        }
    }
    let ghost mid = *board;
    handle_new_towers(board, new_tower);
    proof {
        assert forall|k: int|
            0 <= k < old(board).grid.tiles@.len() implies same_tile_core(
            #[trigger] board.grid.tiles@[k],
            old(board).grid.tiles@[k],
        ) by {
            assert(same_tile_but_damaging(board.grid.tiles@[k], mid.grid.tiles@[k]));
            if k != idx {
                assert(mid.grid.tiles@[k] == old(board).grid.tiles@[k]);
            }
        }
    }
    true
}

} // verus!
