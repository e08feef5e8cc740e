//! Plain-integer game configuration. Durations are milliseconds and speeds
//! are thousandths, so that the whole simulation runs on integers; the
//! file-format side of configuration (YAML load and export) lives with the
//! host program, which converts into this form.
use crate::components::TowerType;
use vstd::prelude::*;

verus! {

/// Cost of one tower type.
#[derive(Clone, Copy, Debug, PartialEq, Eq, Structural)]
pub struct TowerConfig {
    pub cost: u32,
}

/// Per-type tower costs and the damage-tick period.
#[derive(Clone, Copy, Debug, PartialEq, Eq, Structural)]
pub struct TowersConfig {
    pub small: TowerConfig,
    pub medium: TowerConfig,
    pub large: TowerConfig,
    pub damaging_rate_ms: u32,
}

impl TowersConfig {
    pub open spec fn spec_cost(self, t: TowerType) -> u32 {
        match t {
            TowerType::Small => self.small.cost,
            TowerType::Medium => self.medium.cost,
            TowerType::Large => self.large.cost,
        }
    }

    pub fn cost(&self, t: TowerType) -> (r: u32)
        ensures
            r == self.spec_cost(t),
    {
        match t {
            TowerType::Small => self.small.cost,
            TowerType::Medium => self.medium.cost,
            TowerType::Large => self.large.cost,
        }
    }
}

/// Enemy spawning and movement parameters. Health is drawn uniformly from
/// `min_health ..= max_health`; speed is derived inversely from health.
#[derive(Clone, Copy, Debug, PartialEq, Eq, Structural)]
pub struct EnemyConfig {
    pub enemy_spawn_rate_ms: u32,
    pub base_speed_milli: u32,
    pub min_health: u32,
    pub max_health: u32,
}

/// The whole simulation configuration.
#[derive(Clone, Copy, Debug, PartialEq, Eq, Structural)]
pub struct GameConfig {
    pub map_radius: u32,
    pub starting_budget: u32,
    pub tower_config: TowersConfig,
    pub enemy_config: EnemyConfig,
    pub game_length_ms: u32,
    pub game_over_timer_length_ms: u32,
}

impl GameConfig {
    /// Bounds under which every arithmetic step of the simulation stays in
    /// range: a modest board radius, positive timer periods, and a sane
    /// health range.
    pub open spec fn valid(self) -> bool {
        &&& 1 <= self.map_radius <= 64
    &&& self.tower_config.damaging_rate_ms >= 1
    &&& self.enemy_config.enemy_spawn_rate_ms >= 1
    &&& self.enemy_config.base_speed_milli <= 1000000
    &&& 1 <= self.enemy_config.min_health
    &&& self.enemy_config.min_health <= self.enemy_config.max_health
    &&& self.enemy_config.max_health <= 1000000
    &&& self.game_length_ms >= 1
    &&& self.game_over_timer_length_ms >= 1
    }

    /// Check validity at run time, for configurations arriving from outside.
    pub fn is_valid(&self) -> (r: bool)
        ensures
            r == self.valid(),
    {
        1 <= self.map_radius && self.map_radius <= 64 && self.tower_config.damaging_rate_ms >= 1
            && self.enemy_config.enemy_spawn_rate_ms >= 1 && self.enemy_config.base_speed_milli
            <= 1000000 && 1 <= self.enemy_config.min_health && self.enemy_config.min_health
            <= self.enemy_config.max_health && self.enemy_config.max_health <= 1000000
            && self.game_length_ms >= 1 && self.game_over_timer_length_ms >= 1
    }
}

impl GameConfig {
    /// The built-in default configuration as a value.
    pub open spec fn spec_default() -> GameConfig {
        GameConfig {
            map_radius: 20,
            starting_budget: 50,
            tower_config: TowersConfig {
                small: TowerConfig { cost: 8 },
                medium: TowerConfig { cost: 20 },
                large: TowerConfig { cost: 50 },
                damaging_rate_ms: 300,
            },
            enemy_config: EnemyConfig {
                enemy_spawn_rate_ms: 200,
                base_speed_milli: 2000,
                min_health: 5,
                max_health: 20,
            },
            game_length_ms: 60000,
            game_over_timer_length_ms: 5000,
        }
    }
}

impl Default for GameConfig {
    /// The built-in configuration used when no file is given or the file
    /// cannot be read: radius 20, budget 50, costs 8/20/50, 300 ms damage
    /// tick, 200 ms spawn tick, base speed 2.0, health 5..=20, one-minute
    /// match, five-second game-over linger.
    fn default() -> (r: GameConfig)
        ensures
            r == GameConfig::spec_default(),
            r.valid(),
            r.map_radius == 20,
            r.starting_budget == 50,
            r.tower_config == (TowersConfig {
                small: TowerConfig { cost: 8 },
                medium: TowerConfig { cost: 20 },
                large: TowerConfig { cost: 50 },
                damaging_rate_ms: 300,
            }),
            r.enemy_config == (EnemyConfig {
                enemy_spawn_rate_ms: 200,
                base_speed_milli: 2000,
                min_health: 5,
                max_health: 20,
            }),
            r.game_length_ms == 60000,
            r.game_over_timer_length_ms == 5000,
    {
        GameConfig {
            map_radius: 20,
            starting_budget: 50,
            tower_config: TowersConfig {
                small: TowerConfig { cost: 8 },
                medium: TowerConfig { cost: 20 },
                large: TowerConfig { cost: 50 },
                damaging_rate_ms: 300,
            },
            enemy_config: EnemyConfig {
                enemy_spawn_rate_ms: 200,
                base_speed_milli: 2000,
                min_health: 5,
                max_health: 20,
            },
            game_length_ms: 60000,
            game_over_timer_length_ms: 5000,
        }
    }
}

} // verus!
