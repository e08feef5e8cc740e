//! The data carried by the simulation: tiles and their flags, towers,
//! enemies, score, budget, and timers.
use crate::hex::Hex;
use vstd::prelude::*;

verus! {

/// Terrain of one tile; toggling flips between the two.
#[derive(Clone, Copy, Debug, PartialEq, Eq, Structural)]
pub enum TileType {
    Plains,
    Mountain,
}

/// Accumulated tower damage overlaid on an on-path tile.
#[derive(Clone, Copy, Debug, PartialEq, Eq, Structural)]
pub struct Damaging {
    pub value: u32,
}

/// One cell of the board: terrain plus the derived flags. The goal and spawn
/// flags are fixed at generation; `on_path` is owned by the path planner and
/// `damaging` by the damage aggregator.
#[derive(Clone, Copy, Debug, PartialEq, Eq, Structural)]
pub struct Tile {
    pub tile_type: TileType,
    pub is_cursor: bool,
    pub is_goal: bool,
    pub is_spawn: bool,
    pub has_tower: bool,
    pub on_path: bool,
    pub damaging: Option<Damaging>,
}

/// The three tower sizes.
#[derive(Clone, Copy, Debug, PartialEq, Eq, Structural)]
pub enum TowerType {
    Small,
    Medium,
    Large,
}

impl TowerType {
    /// Coverage radius in rings, fixed per type.
    pub open spec fn spec_range(self) -> u32 {
        match self {
            TowerType::Small => 1,
            TowerType::Medium => 2,
            TowerType::Large => 3,
        }
    }

    /// Damage contributed per damage tick, fixed per type.
    pub open spec fn spec_damage(self) -> u32 {
        match self {
            TowerType::Small => 1,
            TowerType::Medium => 2,
            TowerType::Large => 3,
        }
    }

    pub fn range(&self) -> (r: u32)
        ensures
            r == self.spec_range(),
    {
        match self {
            TowerType::Small => 1,
            TowerType::Medium => 2,
            TowerType::Large => 3,
        }
    }

    pub fn damage(&self) -> (r: u32)
        ensures
            r == self.spec_damage(),
    {
        match self {
            TowerType::Small => 1,
            TowerType::Medium => 2,
            TowerType::Large => 3,
        }
    }
}

/// A purchased tower.
#[derive(Clone, Copy, Debug, PartialEq, Eq, Structural)]
pub struct Tower {
    pub tower_type: TowerType,
    pub cost: u32,
}

/// A tower together with the cell it occupies.
#[derive(Clone, Copy, Debug, PartialEq, Eq, Structural)]
pub struct PlacedTower {
    pub tower: Tower,
    pub pos: Hex,
}

/// A live enemy's health and the budget reward for killing it.
#[derive(Clone, Copy, Debug, PartialEq, Eq, Structural)]
pub struct Enemy {
    pub health: u32,
    pub value: u32,
}

/// Route assignment and interpolation state of an enemy: which spawn's route
/// it walks, how many cells of it are behind it, and the fraction of the
/// current segment already walked, in thousandths.
#[derive(Clone, Copy, Debug, PartialEq, Eq, Structural)]
pub struct Moves {
    pub spawn_index: usize,
    pub progress: usize,
    pub lerp_milli: u32,
    pub speed_milli: u32,
}

/// One spawned enemy.
#[derive(Clone, Copy, Debug, PartialEq, Eq, Structural)]
pub struct EnemyUnit {
    pub enemy: Enemy,
    pub moves: Moves,
}

/// The player's spendable resource.
#[derive(Clone, Copy, Debug, PartialEq, Eq, Structural)]
pub struct Budget(pub u32);

/// Kill count for the player, breach count for the enemies.
#[derive(Clone, Copy, Debug, PartialEq, Eq, Structural)]
pub struct ScoreBoard {
    pub player_score: u32,
    pub enemy_score: u32,
}

/// A countdown that fires when it runs out; a repeating one rearms itself
/// with its period, a one-shot one stays expired. At most one firing per
/// advance.
#[derive(Clone, Copy, Debug, PartialEq, Eq, Structural)]
pub struct TickTimer {
    pub remaining_ms: u32,
    pub period_ms: u32,
    pub repeating: bool,
}

impl TickTimer {
    pub open spec fn wf(self) -> bool {
        self.period_ms >= 1 && (self.repeating ==> self.remaining_ms >= 1) && self.remaining_ms
            <= self.period_ms
    }

    pub fn new_repeating(period_ms: u32) -> (r: TickTimer)
        requires
            period_ms >= 1,
        ensures
            r == (TickTimer { remaining_ms: period_ms, period_ms, repeating: true }),
            r.wf(),
    {
        TickTimer { remaining_ms: period_ms, period_ms, repeating: true }
    }

    pub fn new_once(length_ms: u32) -> (r: TickTimer)
        requires
            length_ms >= 1,
        ensures
            r == (TickTimer { remaining_ms: length_ms, period_ms: length_ms, repeating: false }),
            r.wf(),
    {
        TickTimer { remaining_ms: length_ms, period_ms: length_ms, repeating: false }
    }

    /// Whether advancing by `dt_ms` makes the countdown fire.
    pub open spec fn spec_fires(self, dt_ms: u32) -> bool {
        self.remaining_ms > 0 && dt_ms >= self.remaining_ms
    }

    /// The countdown after advancing by `dt_ms`.
    pub open spec fn spec_after(self, dt_ms: u32) -> TickTimer {
        TickTimer {
            remaining_ms: if self.spec_fires(dt_ms) {
                if self.repeating {
                    self.period_ms
                } else {
                    0u32
                }
            } else if self.remaining_ms == 0 {
                0u32
            } else {
                (self.remaining_ms - dt_ms) as u32
            },
            ..self
        }
    }

    /// Advance the countdown by `dt_ms`; report whether it fired.
    pub fn tick(&mut self, dt_ms: u32) -> (fired: bool)
        requires
            old(self).wf(),
        ensures
            final(self).wf(),
            fired == old(self).spec_fires(dt_ms),
            *final(self) == old(self).spec_after(dt_ms),
    {
        if self.remaining_ms > 0 && dt_ms >= self.remaining_ms {
            if self.repeating {
                self.remaining_ms = self.period_ms;
            } else {
                self.remaining_ms = 0;
            }
            true
        } else {
            if self.remaining_ms > 0 {
                self.remaining_ms = self.remaining_ms - dt_ms;
            }
            false
        }
    }
}

/// The board's repeating spawn and damage timers and the one-shot
/// game-over linger timer.
#[derive(Clone, Copy, Debug, PartialEq, Eq, Structural)]
pub struct TDTimers {
    pub enemy_spawn_rate: TickTimer,
    pub tower_damaging_rate: TickTimer,
    pub game_over_timer: TickTimer,
}

/// One-shot countdown over the whole match.
#[derive(Clone, Copy, Debug, PartialEq, Eq, Structural)]
pub struct GameTimer(pub TickTimer);

/// Coarse game phase.
#[derive(Clone, Copy, Debug, PartialEq, Eq, Structural)]
pub enum AppState {
    Setup,
    InGame,
    Pause,
    Restart,
    GameOver,
}

/// Display bucket for an overlay value.
#[derive(Clone, Copy, Debug, PartialEq, Eq, Structural)]
pub enum DamageLevel {
    Low,
    Medium,
    High,
}

impl DamageLevel {
    pub fn get_level(damage: u32) -> (r: DamageLevel)
        ensures
            r == (if damage <= 3 {
                DamageLevel::Low
            } else if damage <= 7 {
                DamageLevel::Medium
            } else {
                DamageLevel::High
            }),
    {
        if damage <= 3 {
            DamageLevel::Low
        } else if damage <= 7 {
            DamageLevel::Medium
        } else {
            DamageLevel::High
        }
    }
}

} // verus!
