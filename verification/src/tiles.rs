//! Board construction and tile toggling.
use crate::board::{TDBoard, TDPaths, coverage, lemma_wf_same_flags, pick_spawn_points};
use crate::components::{Budget, GameTimer, ScoreBoard, TDTimers, TickTimer, Tile, TileType};
use crate::config::GameConfig;
use crate::grid::generate_grid;
use crate::hex::Hex;
use vstd::prelude::*;

verus! {

/// Build a fresh board from the configuration: pick the six spawns, lay the
/// spiral of tiles, and arm the timers. Routes are not computed yet; the
/// caller follows up with a path recomputation, as board generation always
/// requests one.
#[verifier::rlimit(60)]
pub fn spawn_board_and_tiles(config: &GameConfig, rng: &mut rand::rngs::StdRng) -> (b: TDBoard)
    requires
        config.valid(),
    ensures
        b.wf(),
        b.grid.radius == config.map_radius,
        b.paths.paths is None,
        b.towers@.len() == 0,
        b.enemies@.len() == 0,
        b.budget.0 == config.starting_budget,
        b.score == (ScoreBoard { player_score: 0, enemy_score: 0 }),
        b.timers.enemy_spawn_rate.period_ms == config.enemy_config.enemy_spawn_rate_ms,
        b.timers.tower_damaging_rate.period_ms == config.tower_config.damaging_rate_ms,
        b.game_timer.0.remaining_ms == config.game_length_ms,
{
    let spawns = pick_spawn_points(config.map_radius, rng);
    let grid = generate_grid(config.map_radius, &spawns, rng);
    let b = TDBoard {
        grid,
        paths: TDPaths { spawns, paths: None },
        towers: Vec::new(),
        enemies: Vec::new(),
        budget: Budget(config.starting_budget),
        score: ScoreBoard { player_score: 0, enemy_score: 0 },
        timers: TDTimers {
            enemy_spawn_rate: TickTimer::new_repeating(config.enemy_config.enemy_spawn_rate_ms),
            tower_damaging_rate: TickTimer::new_repeating(config.tower_config.damaging_rate_ms),
            game_over_timer: TickTimer::new_once(config.game_over_timer_length_ms),
        },
        game_timer: GameTimer(TickTimer::new_once(config.game_length_ms)),
    };
    proof {
        assert(b.grid.wf());
        assert(b.spawns_wf());
        assert(b.paths_wf());
        assert forall|i: int| 0 <= i < b.grid.tiles@.len() implies !(#[trigger] b.grid.tiles@[i]).has_tower by {}
        assert(b.towers_wf());
        assert forall|i: int| 0 <= i < b.grid.tiles@.len() implies coverage(
            b.towers@,
            b.grid.coords@[i],
        ) == 0 by {}
        assert(b.overlay_wf());
        assert(b.enemies_wf());
        assert(b.timers_wf());
    }
    b
}

/// The tile-toggle relation: everything `toggle_tile` promises of the board
/// it leaves behind. Off the board nothing changes at all; on the board
/// exactly the addressed tile's terrain flips, every flag and every other
/// part of the board stays as it was, and a route recomputation is demanded
/// exactly when the flipped tile was on the path.
pub open spec fn toggle_applied(pre: TDBoard, hex_pos: Hex, post: TDBoard, recalc: bool) -> bool {
    &&& post.wf()
    &&& if !pre.grid.contains_hex(hex_pos) {
        post == pre && !recalc
    } else {
        let i = pre.grid.idx_of(hex_pos);
        let t = pre.grid.tiles@[i];
        &&& recalc == t.on_path
        &&& post.grid.tiles@ == pre.grid.tiles@.update(
            i,
            Tile {
                tile_type: if t.tile_type == TileType::Plains {
                    TileType::Mountain
                } else {
                    TileType::Plains
                },
                ..t
            },
        )
        &&& post.grid.coords == pre.grid.coords
        &&& post.grid.radius == pre.grid.radius
        &&& post.paths == pre.paths
        &&& post.towers == pre.towers
        &&& post.enemies == pre.enemies
        &&& post.budget == pre.budget
        &&& post.score == pre.score
        &&& post.timers == pre.timers
        &&& post.game_timer == pre.game_timer
    }
}

/// Flip a tile between plains and mountain. Off the board this is a no-op;
/// on the board only the terrain changes, every flag and every other part of
/// the board stays as it was. Returns whether the toggled tile was on the
/// path, in which case the caller must request a path recomputation.
#[verifier::rlimit(60)]
pub fn toggle_tile(board: &mut TDBoard, hex_pos: Hex) -> (recalc: bool)
    requires
        old(board).wf(),
    ensures
        final(board).wf(),
        toggle_applied(*old(board), hex_pos, *final(board), recalc),
{
    match board.grid.resolve(hex_pos) {
        None => false,
        Some(i) => {
            let t = board.grid.tiles[i];
            let new_type = if matches!(t.tile_type, TileType::Plains) {
                TileType::Mountain
            } else {
                TileType::Plains
            };
            board.grid.tiles[i].tile_type = new_type;
            proof {
                assert forall|k: int|
                    0 <= k < old(board).grid.tiles@.len() implies {
                    let tn = #[trigger] board.grid.tiles@[k];
                    let to = old(board).grid.tiles@[k];
                    tn.is_goal == to.is_goal && tn.is_spawn == to.is_spawn && tn.on_path
                        == to.on_path && tn.has_tower == to.has_tower && tn.damaging == to.damaging
                } by {
                    if k != i {
                        assert(board.grid.tiles@[k] == old(board).grid.tiles@[k]);
                    }
                }
                lemma_wf_same_flags(*old(board), *board);
            }
            t.on_path
        },
    }
}

} // verus!
