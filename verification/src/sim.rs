//! The owned simulation state and the tick that drives it: command
//! dispatch, the deferred path recomputation, the enemy phases in their
//! fixed order, and the coarse game-phase machine.
use crate::board::TDBoard;
use crate::communication::{
    GameOver, RecalculateEnemyPaths, RefreshTowerDamage, Restart, TDCommand,
};
use crate::components::{AppState, TDTimers};
use crate::config::GameConfig;
use crate::enemies::{
    handle_enemy_damage, handle_enemy_movement, recalculate_enemy_path, spawn_enemies,
};
use crate::rng::rng_from_seed;
use crate::enemies::{damage_applied, move_applied, recalc_applied, spawn_applied};
use crate::tiles::{spawn_board_and_tiles, toggle_tile, toggle_applied};
use crate::towers::{place_applied, spawn_tower};
use vstd::prelude::*;

verus! {

/// Position of the first restart command in a batch, or the batch length
/// when there is none: the dispatcher processes exactly this prefix.
pub open spec fn first_restart(cmds: Seq<TDCommand>) -> int
    decreases cmds.len(),
{
    if cmds.len() == 0 {
        0
    } else if cmds[0] is Restart {
        0
    } else {
        1 + first_restart(cmds.drop_first())
    }
}

/// A scan that stops at the first restart command locates it.
proof fn lemma_first_restart_at(cmds: Seq<TDCommand>, c: int)
    requires
        0 <= c <= cmds.len(),
        forall|j: int| 0 <= j < c ==> !(#[trigger] cmds[j] is Restart),
        c == cmds.len() || cmds[c] is Restart,
    ensures
        first_restart(cmds) == c,
    decreases c,
{
    if c > 0 {
        assert(!(cmds[0] is Restart));
        assert forall|j: int| 0 <= j < c - 1 implies !(#[trigger] cmds.drop_first()[j]
            is Restart) by {
            assert(cmds.drop_first()[j] == cmds[j + 1]);
        }
        if c - 1 < cmds.drop_first().len() {
            assert(cmds.drop_first()[c - 1] == cmds[c]);
        }
        lemma_first_restart_at(cmds.drop_first(), c - 1);
    }
}

/// One dispatcher step: the effect of a single non-restart command on the
/// board and the deferred-recomputation flag.
pub open spec fn cmd_applied(
    cfg: GameConfig,
    pre: TDBoard,
    pre_p: bool,
    cmd: TDCommand,
    post: TDBoard,
    post_p: bool,
) -> bool {
    match cmd {
        TDCommand::Toggle(t) => exists|rc: bool|
            #[trigger] toggle_applied(pre, t.hex_pos, post, rc) && post_p == (pre_p || rc),
        TDCommand::Tower(c) => exists|pl: bool|
            #[trigger] place_applied(cfg, pre, c.tower_type, c.hex_pos, post, pl) && post_p
                == pre_p,
        TDCommand::Restart(_) => false,
    }
}

/// A restart-free batch of commands applied in order, each step by its own
/// relation, threading the deferred-recomputation flag through.
pub open spec fn batch_applied(
    cfg: GameConfig,
    pre: TDBoard,
    pre_p: bool,
    cmds: Seq<TDCommand>,
    post: TDBoard,
    post_p: bool,
) -> bool
    decreases cmds.len(),
{
    if cmds.len() == 0 {
        post == pre && post_p == pre_p
    } else {
        exists|mid: TDBoard, mid_p: bool|
            #[trigger] cmd_applied(cfg, pre, pre_p, cmds[0], mid, mid_p) && batch_applied(
                cfg,
                mid,
                mid_p,
                cmds.drop_first(),
                post,
                post_p,
            )
    }
}

/// Appending one applied command to an applied batch applies the longer
/// batch.
proof fn lemma_batch_push(
    cfg: GameConfig,
    pre: TDBoard,
    pre_p: bool,
    cmds: Seq<TDCommand>,
    mid: TDBoard,
    mid_p: bool,
    cmd: TDCommand,
    post: TDBoard,
    post_p: bool,
)
    requires
        batch_applied(cfg, pre, pre_p, cmds, mid, mid_p),
        cmd_applied(cfg, mid, mid_p, cmd, post, post_p),
    ensures
        batch_applied(cfg, pre, pre_p, cmds.push(cmd), post, post_p),
    decreases cmds.len(),
{
    if cmds.len() == 0 {
        assert(mid == pre && mid_p == pre_p);
        assert(cmds.push(cmd)[0] == cmd);
        assert(cmds.push(cmd).drop_first() =~= Seq::<TDCommand>::empty());
        assert(cmd_applied(cfg, pre, pre_p, cmds.push(cmd)[0], post, post_p));
        assert(batch_applied(cfg, post, post_p, cmds.push(cmd).drop_first(), post, post_p));
    } else {
        let (m1, p1): (TDBoard, bool) = choose|m1: TDBoard, p1: bool|
            #[trigger] cmd_applied(cfg, pre, pre_p, cmds[0], m1, p1) && batch_applied(
                cfg,
                m1,
                p1,
                cmds.drop_first(),
                mid,
                mid_p,
            );
        lemma_batch_push(cfg, m1, p1, cmds.drop_first(), mid, mid_p, cmd, post, post_p);
        assert(cmds.push(cmd)[0] == cmds[0]);
        assert(cmds.push(cmd).drop_first() =~= cmds.drop_first().push(cmd));
        assert(cmd_applied(cfg, pre, pre_p, cmds.push(cmd)[0], m1, p1));
    }
}

/// The deferred-recomputation step of one frame: when a recomputation was
/// pending it ran in full, otherwise the board is untouched.
pub open spec fn pending_step(ran: bool, pre: TDBoard, post: TDBoard) -> bool {
    if ran {
        recalc_applied(pre, post)
    } else {
        post == pre
    }
}

/// The whole game: one board, the coarse phase, the configuration, the
/// seeded random stream, and the deferred request to recompute routes.
pub struct Simulation {
    pub board: TDBoard,
    pub state: AppState,
    pub config: GameConfig,
    pub rng: rand::rngs::StdRng,
    pub pending_recalculate: Option<RecalculateEnemyPaths>,
}

impl Simulation {
    /// The simulation invariant: a well-formed board under a valid
    /// configuration, with routes computed whenever play is under way.
    pub open spec fn wf(self) -> bool {
        &&& self.board.wf()
        &&& self.config.valid()
        &&& ((self.state == AppState::InGame || self.state == AppState::Pause || self.state
            == AppState::GameOver) ==> self.board.paths.paths is Some)
    }

    /// Build a fresh simulation: take the configuration (falling back to
    /// the built-in defaults when the given one is out of range), seed the
    /// random stream, lay out the board, compute the first route set, and
    /// enter play.
    pub fn new(config: GameConfig, seed: u64) -> (s: Simulation)
        ensures
            s.wf(),
            s.state == AppState::InGame,
            s.config == if config.valid() {
                config
            } else {
                GameConfig::spec_default()
            },
            s.board.budget.0 == s.config.starting_budget,
            s.board.score.player_score == 0,
            s.board.score.enemy_score == 0,
            s.board.grid.radius == s.config.map_radius,
            s.board.routes_connected(),
    {
        let config = if config.is_valid() {
            config
        } else {
            GameConfig::default()
        };
        let mut rng = rng_from_seed(seed);
        let mut board = spawn_board_and_tiles(&config, &mut rng);
        recalculate_enemy_path(&mut board);
        Simulation {
            board,
            state: AppState::InGame,
            config,
            rng,
            pending_recalculate: None,
        }
    }

    /// Discard the board wholesale and build a new one; nothing survives
    /// but the configuration and the random stream. Ends back in play.
    pub fn restart(&mut self)
        requires
            old(self).wf(),
        ensures
            final(self).wf(),
            final(self).state == AppState::InGame,
            final(self).config == old(self).config,
            final(self).board.budget.0 == old(self).config.starting_budget,
            final(self).board.score.player_score == 0,
            final(self).board.score.enemy_score == 0,
            final(self).board.towers@.len() == 0,
            final(self).board.enemies@.len() == 0,
            final(self).board.grid.radius == old(self).config.map_radius,
            final(self).board.routes_connected(),
            final(self).pending_recalculate is None,
    {
        let mut board = spawn_board_and_tiles(&self.config, &mut self.rng);
        recalculate_enemy_path(&mut board);
        self.board = board;
        self.state = AppState::InGame;
        self.pending_recalculate = None;
    }

    /// An outside restart request: the current board is done for; the next
    /// tick rebuilds.
    pub fn receive_restart_command(&mut self, _r: Restart)
        requires
            old(self).wf(),
        ensures
            final(self).wf(),
            final(self).state == AppState::Restart,
            final(self).board == old(self).board,
            final(self).config == old(self).config,
            final(self).pending_recalculate == old(self).pending_recalculate,
            final(self).rng == old(self).rng,
    {
        self.state = AppState::Restart;
    }

    /// Toggle between play and pause; no simulation progress while paused.
    pub fn toggle_pause(&mut self)
        requires
            old(self).wf(),
        ensures
            final(self).wf(),
            final(self).board == old(self).board,
            final(self).config == old(self).config,
            final(self).state == (if old(self).state == AppState::InGame {
                AppState::Pause
            } else if old(self).state == AppState::Pause {
                AppState::InGame
            } else {
                old(self).state
            }),
    {
        if matches!(self.state, AppState::InGame) {
            self.state = AppState::Pause;
        } else if matches!(self.state, AppState::Pause) {
            self.state = AppState::InGame;
        }
    }

    /// Drain one tick's batch of outside commands into the simulation.
    /// Toggles flip terrain and, when the flipped tile was on the path,
    /// defer a route recomputation; tower commands go through the placement
    /// gate; a restart command supersedes everything left in the batch.
    pub fn execute_outside_commands(&mut self, cmds: &Vec<TDCommand>)
        requires
            old(self).wf(),
            old(self).state == AppState::InGame,
        ensures
            final(self).wf(),
            final(self).config == old(self).config,
            final(self).rng == old(self).rng,
            final(self).state == AppState::InGame || final(self).state == AppState::Restart,
            final(self).state == AppState::Restart <==> first_restart(cmds@) < cmds@.len(),
            batch_applied(
                old(self).config,
                old(self).board,
                old(self).pending_recalculate is Some,
                cmds@.take(first_restart(cmds@)),
                final(self).board,
                final(self).pending_recalculate is Some,
            ),
            final(self).board.grid.radius == old(self).board.grid.radius,
            final(self).board.score == old(self).board.score,
    {
        let n = cmds.len();
        let mut c: usize = 0;
        while c < n
            invariant
                c <= n,
                n == cmds@.len(),
                self.wf(),
                self.config == old(self).config,
                self.state == AppState::InGame,
                forall|k: int| 0 <= k < c ==> !(#[trigger] cmds@[k] is Restart),
                batch_applied(
                    old(self).config,
                    old(self).board,
                    old(self).pending_recalculate is Some,
                    cmds@.take(c as int),
                    self.board,
                    self.pending_recalculate is Some,
                ),
                self.board.grid.radius == old(self).board.grid.radius,
                self.board.score == old(self).board.score,
                self.rng == old(self).rng,
            decreases n - c,
        {
            let cmd = cmds[c];
            let ghost prev = self.board;
            let ghost prev_p = self.pending_recalculate is Some;
            match cmd {
                TDCommand::Toggle(t) => {
                    let needs_recalc = toggle_tile(&mut self.board, t.hex_pos);
                    if needs_recalc {
                        self.pending_recalculate = Some(RecalculateEnemyPaths);
                    }
                    proof {
                        assert(toggle_applied(prev, t.hex_pos, self.board, needs_recalc));
                        assert(self.pending_recalculate is Some == (prev_p || needs_recalc));
                        assert(cmd_applied(
                            old(self).config,
                            prev,
                            prev_p,
                            cmds@[c as int],
                            self.board,
                            self.pending_recalculate is Some,
                        ));
                    }
                },
                TDCommand::Tower(t) => {
                    let config = self.config;
                    let was_placed = spawn_tower(&mut self.board, &config, t.tower_type, t.hex_pos);
                    proof {
                        assert(place_applied(
                            old(self).config,
                            prev,
                            t.tower_type,
                            t.hex_pos,
                            self.board,
                            was_placed,
                        ));
                        assert(cmd_applied(
                            old(self).config,
                            prev,
                            prev_p,
                            cmds@[c as int],
                            self.board,
                            self.pending_recalculate is Some,
                        ));
                    }
                },
                TDCommand::Restart(r) => {
                    self.receive_restart_command(r);
                    proof {
                        assert(cmds@[c as int] is Restart);
                        lemma_first_restart_at(cmds@, c as int);
                    }
                    return ;
                },
            }
            proof {
                lemma_batch_push(
                    old(self).config,
                    old(self).board,
                    old(self).pending_recalculate is Some,
                    cmds@.take(c as int),
                    prev,
                    prev_p,
                    cmds@[c as int],
                    self.board,
                    self.pending_recalculate is Some,
                );
                assert(cmds@.take(c as int + 1) =~= cmds@.take(c as int).push(cmds@[c as int]));
            }
            c += 1;
        }
        proof {
            lemma_first_restart_at(cmds@, n as int);
            assert(cmds@.take(n as int) =~= cmds@);
        }
    }

    /// Run the deferred route recomputation, if one is pending. Returns the
    /// overlay-refresh notice when the recomputation ran, so the host can
    /// redraw what hangs on the overlay.
    pub fn handle_pending_recalculation(&mut self) -> (r: Option<RefreshTowerDamage>)
        requires
            old(self).wf(),
        ensures
            final(self).wf(),
            final(self).config == old(self).config,
            final(self).state == old(self).state,
            final(self).rng == old(self).rng,
            r is Some <==> old(self).pending_recalculate is Some,
            final(self).pending_recalculate is None,
            old(self).pending_recalculate is None ==> final(self).board == old(self).board,
            old(self).pending_recalculate is Some ==> recalc_applied(
                old(self).board,
                final(self).board,
            ),
    {
        match self.pending_recalculate {
            None => None,
            Some(_) => {
                self.pending_recalculate = None;
                recalculate_enemy_path(&mut self.board);
                Some(RefreshTowerDamage)
            },
        }
    }

    /// Count the match clock down while play is under way; on expiry the
    /// game is over.
    pub fn game_timer(&mut self, dt_ms: u32) -> (over: Option<GameOver>)
        requires
            old(self).wf(),
            old(self).state == AppState::InGame,
        ensures
            final(self).wf(),
            final(self).config == old(self).config,
            over is Some <==> old(self).board.game_timer.0.spec_fires(dt_ms),
            final(self).state == (if old(self).board.game_timer.0.spec_fires(dt_ms) {
                AppState::GameOver
            } else {
                AppState::InGame
            }),
            final(self).board.game_timer.0 == old(self).board.game_timer.0.spec_after(dt_ms),
            final(self).board.grid == old(self).board.grid,
            final(self).board.paths == old(self).board.paths,
            final(self).board.towers == old(self).board.towers,
            final(self).board.enemies == old(self).board.enemies,
            final(self).board.budget == old(self).board.budget,
            final(self).board.score == old(self).board.score,
            final(self).board.timers == old(self).board.timers,
            final(self).pending_recalculate == old(self).pending_recalculate,
            final(self).rng == old(self).rng,
    {
        let fired = self.board.game_timer.0.tick(dt_ms);
        if fired {
            self.state = AppState::GameOver;
            Some(GameOver)
        } else {
            None
        }
    }

    /// Count the game-over linger down; on expiry the board is torn down
    /// and rebuilt. Nothing else of the board moves while it lingers.
    pub fn game_over_timer(&mut self, dt_ms: u32)
        requires
            old(self).wf(),
            old(self).state == AppState::GameOver,
        ensures
            final(self).wf(),
            final(self).config == old(self).config,
            final(self).state == (if old(self).board.timers.game_over_timer.spec_fires(dt_ms) {
                AppState::Restart
            } else {
                AppState::GameOver
            }),
            final(self).board.timers == (TDTimers {
                game_over_timer: old(self).board.timers.game_over_timer.spec_after(dt_ms),
                ..old(self).board.timers
            }),
            final(self).board.grid == old(self).board.grid,
            final(self).board.paths == old(self).board.paths,
            final(self).board.towers == old(self).board.towers,
            final(self).board.enemies == old(self).board.enemies,
            final(self).board.budget == old(self).board.budget,
            final(self).board.score == old(self).board.score,
            final(self).board.game_timer == old(self).board.game_timer,
            final(self).pending_recalculate == old(self).pending_recalculate,
            final(self).rng == old(self).rng,
    {
        let fired = self.board.timers.game_over_timer.tick(dt_ms);
        if fired {
            self.state = AppState::Restart;
        }
    }

    /// One frame of the simulation. While in play the phases run in their
    /// fixed order, and the contract pins each: the command batch up to the
    /// first restart is folded into the board, then a deferred route
    /// recomputation runs if one was demanded (finalizing flags, evicting
    /// towers, rebuilding the overlay), then enemies spawn, move, and take
    /// damage, then the match clock counts down. A restart in the batch
    /// supersedes the rest of the frame. Pause freezes everything; game
    /// over only counts its linger down; a restart rebuilds the board and
    /// resumes next frame.
    #[verifier::rlimit(100)]
    pub fn tick(&mut self, dt_ms: u32, cmds: &Vec<TDCommand>)
        requires
            old(self).wf(),
            dt_ms <= 1000000,
        ensures
            final(self).wf(),
            final(self).config == old(self).config,
            old(self).state == AppState::Pause ==> final(self).board == old(self).board
                && final(self).state == AppState::Pause,
            (old(self).state == AppState::Restart || old(self).state == AppState::Setup) ==> {
                &&& final(self).state == AppState::InGame
                &&& final(self).board.budget.0 == old(self).config.starting_budget
                &&& final(self).board.grid.radius == old(self).config.map_radius
                &&& final(self).board.routes_connected()
            },
            old(self).state == AppState::GameOver ==> {
                &&& final(self).state == (if old(
                    self,
                ).board.timers.game_over_timer.spec_fires(dt_ms) {
                    AppState::Restart
                } else {
                    AppState::GameOver
                })
                &&& final(self).board.timers == (TDTimers {
                    game_over_timer: old(self).board.timers.game_over_timer.spec_after(dt_ms),
                    ..old(self).board.timers
                })
                &&& final(self).board.grid == old(self).board.grid
                &&& final(self).board.paths == old(self).board.paths
                &&& final(self).board.towers == old(self).board.towers
                &&& final(self).board.enemies == old(self).board.enemies
                &&& final(self).board.budget == old(self).board.budget
                &&& final(self).board.score == old(self).board.score
                &&& final(self).board.game_timer == old(self).board.game_timer
            },
            old(self).state == AppState::InGame ==> ({
                let cfg = old(self).config;
                let cut = first_restart(cmds@);
                exists|b1: TDBoard, p1: bool|
                    #[trigger] batch_applied(
                        cfg,
                        old(self).board,
                        old(self).pending_recalculate is Some,
                        cmds@.take(cut),
                        b1,
                        p1,
                    ) && if cut < cmds@.len() {
                        &&& final(self).state == AppState::Restart
                        &&& final(self).board == b1
                        &&& (final(self).pending_recalculate is Some) == p1
                    } else {
                        exists|b2: TDBoard|
                            #[trigger] pending_step(p1, b1, b2) && (exists|b3: TDBoard|
                                #[trigger] spawn_applied(cfg, b2, dt_ms, b3) && (exists|
                                    b4: TDBoard,
                                |
                                    #[trigger] move_applied(cfg, b3, dt_ms, b4) && (exists|
                                        b5: TDBoard,
                                    |
                                        #[trigger] damage_applied(b4, dt_ms, b5) && {
                                            &&& final(self).board.game_timer.0
                                                == b5.game_timer.0.spec_after(dt_ms)
                                            &&& final(self).board.grid == b5.grid
                                            &&& final(self).board.paths == b5.paths
                                            &&& final(self).board.towers == b5.towers
                                            &&& final(self).board.enemies == b5.enemies
                                            &&& final(self).board.budget == b5.budget
                                            &&& final(self).board.score == b5.score
                                            &&& final(self).board.timers == b5.timers
                                            &&& final(self).pending_recalculate is None
                                            &&& final(self).state == (if b5.game_timer.0.spec_fires(
                                                dt_ms,
                                            ) {
                                                AppState::GameOver
                                            } else {
                                                AppState::InGame
                                            })
                                        })))
                    }
            }),
    {
        match self.state {
            AppState::Setup => {
                self.restart();
            },
            AppState::Restart => {
                self.restart();
            },
            AppState::Pause => {},
            AppState::GameOver => {
                self.game_over_timer(dt_ms);
            },
            AppState::InGame => {
                self.execute_outside_commands(cmds);
                let ghost b1 = self.board;
                let ghost p1 = self.pending_recalculate is Some;
                if matches!(self.state, AppState::Restart) {
                    return ;
                }
                self.handle_pending_recalculation();
                let ghost b2 = self.board;
                proof {
                    assert(pending_step(p1, b1, b2));
                }
                let config = self.config;
                spawn_enemies(&mut self.board, &config, dt_ms, &mut self.rng);
                let ghost b3 = self.board;
                proof {
                    assert(spawn_applied(old(self).config, b2, dt_ms, b3));
                }
                handle_enemy_movement(&mut self.board, &config, dt_ms);
                let ghost b4 = self.board;
                proof {
                    assert(move_applied(old(self).config, b3, dt_ms, b4));
                }
                handle_enemy_damage(&mut self.board, dt_ms);
                let ghost b5 = self.board;
                proof {
                    assert(damage_applied(b4, dt_ms, b5));
                }
                self.game_timer(dt_ms);
            },
        }
    }
}

} // verus!
