use hex_defense::communication::parse_command;
use hex_defense::components::DamageLevel;
use hex_defense::components::{AppState, Enemy, EnemyUnit, Moves, TickTimer, TileType, TowerType};
use hex_defense::config::{EnemyConfig, GameConfig, TowerConfig, TowersConfig};
use hex_defense::enemies::{handle_enemy_damage, handle_enemy_movement, recalculate_enemy_path};
use hex_defense::hex::Hex;
use hex_defense::sim::Simulation;
use hex_defense::tiles::toggle_tile;

fn test_config(radius: u32) -> GameConfig {
    GameConfig {
        map_radius: radius,
        starting_budget: 50,
        tower_config: TowersConfig {
            small: TowerConfig { cost: 8 },
            medium: TowerConfig { cost: 20 },
            large: TowerConfig { cost: 50 },
            damaging_rate_ms: 300,
        },
        enemy_config: EnemyConfig {
            enemy_spawn_rate_ms: 200,
            base_speed_milli: 2000,
            min_health: 5,
            max_health: 20,
        },
        game_length_ms: 60000,
        game_over_timer_length_ms: 5000,
    }
}

fn hex_distance(a: Hex, b: Hex) -> i64 {
    let dx = (a.x as i64 - b.x as i64).abs();
    let dy = (a.y as i64 - b.y as i64).abs();
    let ds = ((a.x as i64 + a.y as i64) - (b.x as i64 + b.y as i64)).abs();
    (dx + dy + ds) / 2
}

fn routes(sim: &Simulation) -> &Vec<Vec<Hex>> {
    sim.board.paths.paths.as_ref().expect("routes should be computed")
}

#[test]
fn board_has_one_goal_and_six_spawns() {
    let sim = Simulation::new(test_config(4), 7);
    let grid = &sim.board.grid;
    let goals: Vec<usize> =
        (0..grid.tiles.len()).filter(|&i| grid.tiles[i].is_goal).collect();
    assert_eq!(goals.len(), 1);
    assert_eq!(grid.coords[goals[0]], Hex { x: 0, y: 0 });
    let spawn_flags: Vec<usize> =
        (0..grid.tiles.len()).filter(|&i| grid.tiles[i].is_spawn).collect();
    assert_eq!(spawn_flags.len(), 6);
    assert_eq!(sim.board.paths.spawns.len(), 6);
    for s in sim.board.paths.spawns.iter() {
        assert_eq!(hex_distance(*s, Hex { x: 0, y: 0 }), 4);
    }
}

#[test]
fn goal_and_spawns_survive_toggling() {
    let mut sim = Simulation::new(test_config(3), 11);
    let before_goal: Vec<bool> = sim.board.grid.tiles.iter().map(|t| t.is_goal).collect();
    let before_spawn: Vec<bool> = sim.board.grid.tiles.iter().map(|t| t.is_spawn).collect();
    let coords: Vec<Hex> = sim.board.grid.coords.clone();
    for h in coords {
        toggle_tile(&mut sim.board, h);
    }
    let after_goal: Vec<bool> = sim.board.grid.tiles.iter().map(|t| t.is_goal).collect();
    let after_spawn: Vec<bool> = sim.board.grid.tiles.iter().map(|t| t.is_spawn).collect();
    assert_eq!(before_goal, after_goal);
    assert_eq!(before_spawn, after_spawn);
}

#[test]
fn on_path_flags_equal_route_union() {
    let mut sim = Simulation::new(test_config(3), 5);
    recalculate_enemy_path(&mut sim.board);
    let rs: Vec<Vec<Hex>> = routes(&sim).clone();
    for i in 0..sim.board.grid.tiles.len() {
        let h = sim.board.grid.coords[i];
        let in_union = rs.iter().any(|r| r.contains(&h));
        assert_eq!(sim.board.grid.tiles[i].on_path, in_union);
    }
}

#[test]
fn tower_stats_are_fixed_per_type() {
    assert_eq!(TowerType::Small.range(), 1);
    assert_eq!(TowerType::Small.damage(), 1);
    assert_eq!(TowerType::Medium.range(), 2);
    assert_eq!(TowerType::Medium.damage(), 2);
    assert_eq!(TowerType::Large.range(), 3);
    assert_eq!(TowerType::Large.damage(), 3);
}

#[test]
fn overlay_is_sum_of_covering_towers() {
    let mut sim = Simulation::new(test_config(3), 13);
    // target: the first cell of some nonempty route
    let target = routes(&sim)
        .iter()
        .find(|r| !r.is_empty())
        .expect("some route should be nonempty")[0];
    // two placeable cells within small-tower range would be rare; use large towers
    let mut placed = 0;
    let coords: Vec<Hex> = sim.board.grid.coords.clone();
    let config = sim.config;
    for h in coords {
        if placed == 2 {
            break;
        }
        let i = match sim.board.grid.resolve(h) {
            Some(i) => i,
            None => continue,
        };
        let t = sim.board.grid.tiles[i];
        if !t.has_tower && !t.on_path && !t.is_goal && !t.is_spawn && hex_distance(h, target) <= 3 {
            // budget 50 covers one large (50); use small+medium instead
            let tt = if placed == 0 { TowerType::Small } else { TowerType::Medium };
            if hex_distance(h, target) <= tt.range() as i64 {
                if hex_defense::towers::spawn_tower(&mut sim.board, &config, tt, h) {
                    placed += 1;
                }
            }
        }
    }
    // whatever was placed, the overlay at every on-path cell must equal the
    // sum of the damage of the towers covering it
    for i in 0..sim.board.grid.tiles.len() {
        let h = sim.board.grid.coords[i];
        let t = sim.board.grid.tiles[i];
        let mut sum = 0u32;
        for pt in sim.board.towers.iter() {
            if hex_distance(pt.pos, h) <= pt.tower.tower_type.range() as i64 {
                sum += pt.tower.tower_type.damage();
            }
        }
        match t.damaging {
            Some(d) => {
                assert!(t.on_path && sum > 0);
                assert_eq!(d.value, sum);
            },
            None => assert!(!(t.on_path && sum > 0)),
        }
    }
}

#[test]
fn placement_on_goal_is_always_rejected() {
    let mut sim = Simulation::new(test_config(3), 17);
    sim.board.budget.0 = 1000000;
    let budget_before = sim.board.budget.0;
    let cmd = parse_command("tower 0,0 s").expect("command should parse");
    let cmds = vec![cmd];
    sim.execute_outside_commands(&cmds);
    assert_eq!(sim.board.towers.len(), 0);
    assert_eq!(sim.board.budget.0, budget_before);
}

#[test]
fn placement_rejections_never_debit() {
    let mut sim = Simulation::new(test_config(3), 19);
    let config = sim.config;
    let budget = sim.board.budget.0;
    // off the board
    assert!(!hex_defense::towers::spawn_tower(
        &mut sim.board,
        &config,
        TowerType::Small,
        Hex { x: 99999, y: 99999 },
    ));
    assert_eq!(sim.board.budget.0, budget);
    // a spawn cell
    let spawn = sim.board.paths.spawns[0];
    assert!(!hex_defense::towers::spawn_tower(&mut sim.board, &config, TowerType::Small, spawn));
    assert_eq!(sim.board.budget.0, budget);
    // an on-path cell
    let on_path = routes(&sim).iter().find(|r| !r.is_empty()).unwrap()[1];
    assert!(!hex_defense::towers::spawn_tower(&mut sim.board, &config, TowerType::Small, on_path));
    assert_eq!(sim.board.budget.0, budget);
}

#[test]
fn placement_beyond_budget_is_rejected() {
    let mut sim = Simulation::new(test_config(3), 23);
    sim.board.budget.0 = 7;  // below the cheapest tower
    let config = sim.config;
    let mut tried = false;
    let coords: Vec<Hex> = sim.board.grid.coords.clone();
    for h in coords {
        let i = sim.board.grid.resolve(h).unwrap();
        let t = sim.board.grid.tiles[i];
        if !t.has_tower && !t.on_path && !t.is_goal && !t.is_spawn {
            assert!(!hex_defense::towers::spawn_tower(
                &mut sim.board,
                &config,
                TowerType::Small,
                h,
            ));
            assert_eq!(sim.board.budget.0, 7);
            tried = true;
            break;
        }
    }
    assert!(tried);
}

#[test]
fn placement_debits_exactly_the_cost() {
    let mut sim = Simulation::new(test_config(3), 29);
    let config = sim.config;
    let coords: Vec<Hex> = sim.board.grid.coords.clone();
    for h in coords {
        let i = sim.board.grid.resolve(h).unwrap();
        let t = sim.board.grid.tiles[i];
        if !t.has_tower && !t.on_path && !t.is_goal && !t.is_spawn {
            assert!(hex_defense::towers::spawn_tower(
                &mut sim.board,
                &config,
                TowerType::Small,
                h,
            ));
            assert_eq!(sim.board.budget.0, 50 - 8);
            // the same cell is occupied now
            assert!(!hex_defense::towers::spawn_tower(
                &mut sim.board,
                &config,
                TowerType::Small,
                h,
            ));
            assert_eq!(sim.board.budget.0, 50 - 8);
            return;
        }
    }
    panic!("no placeable cell found");
}

#[test]
fn damage_tick_kills_and_credits_exactly_once() {
    let mut sim = Simulation::new(test_config(3), 31);
    let config = sim.config;
    let (k, target) = routes(&sim)
        .iter()
        .enumerate()
        .find(|(_, r)| !r.is_empty())
        .map(|(k, r)| (k, r[0]))
        .expect("some route should be nonempty");
    // cover the target cell with one large tower
    let coords: Vec<Hex> = sim.board.grid.coords.clone();
    let mut covered = false;
    for h in coords {
        let i = sim.board.grid.resolve(h).unwrap();
        let t = sim.board.grid.tiles[i];
        if !t.has_tower && !t.on_path && !t.is_goal && !t.is_spawn && hex_distance(h, target) <= 3 {
            assert!(hex_defense::towers::spawn_tower(
                &mut sim.board,
                &config,
                TowerType::Large,
                h,
            ));
            covered = true;
            break;
        }
    }
    assert!(covered, "no cell within large-tower range of the target");
    let overlay = {
        let i = sim.board.grid.resolve(target).unwrap();
        sim.board.grid.tiles[i].damaging.expect("target should be covered").value
    };
    assert!(overlay >= 3);
    // a tough enemy survives one tick, losing exactly the overlay value
    sim.board.enemies.push(EnemyUnit {
        enemy: Enemy { health: overlay + 5, value: 9 },
        moves: Moves { spawn_index: k, progress: 0, lerp_milli: 0, speed_milli: 1000 },
    });
    let budget = sim.board.budget.0;
    handle_enemy_damage(&mut sim.board, 300);
    assert_eq!(sim.board.enemies.len(), 1);
    assert_eq!(sim.board.enemies[0].enemy.health, 5);
    assert_eq!(sim.board.budget.0, budget);
    assert_eq!(sim.board.score.player_score, 0);
    // a weak enemy dies in one tick: removed, credited, counted exactly once
    sim.board.enemies.clear();
    sim.board.enemies.push(EnemyUnit {
        enemy: Enemy { health: overlay, value: 9 },
        moves: Moves { spawn_index: k, progress: 0, lerp_milli: 0, speed_milli: 1000 },
    });
    handle_enemy_damage(&mut sim.board, 300);
    assert_eq!(sim.board.enemies.len(), 0);
    assert_eq!(sim.board.budget.0, budget + 9);
    assert_eq!(sim.board.score.player_score, 1);
    // off the tick boundary nothing happens
    sim.board.enemies.push(EnemyUnit {
        enemy: Enemy { health: 1, value: 1 },
        moves: Moves { spawn_index: k, progress: 0, lerp_milli: 0, speed_milli: 1000 },
    });
    handle_enemy_damage(&mut sim.board, 100);
    assert_eq!(sim.board.enemies.len(), 1);
    assert_eq!(sim.board.enemies[0].enemy.health, 1);
}

#[test]
fn movement_advances_and_breaches_exactly_once() {
    let mut sim = Simulation::new(test_config(3), 37);
    let config = sim.config;
    let (k, route_len) = routes(&sim)
        .iter()
        .enumerate()
        .find(|(_, r)| r.len() >= 2)
        .map(|(k, r)| (k, r.len()))
        .expect("some route should have at least two cells");
    // fresh enemy: base speed 2.0, dt 300 ms, full speed -> gain 600
    sim.board.enemies.push(EnemyUnit {
        enemy: Enemy { health: 3, value: 1 },
        moves: Moves { spawn_index: k, progress: 0, lerp_milli: 0, speed_milli: 1000 },
    });
    handle_enemy_movement(&mut sim.board, &config, 300);
    assert_eq!(sim.board.enemies.len(), 1);
    assert_eq!(sim.board.enemies[0].moves.progress, 0);
    assert_eq!(sim.board.enemies[0].moves.lerp_milli, 600);
    handle_enemy_movement(&mut sim.board, &config, 300);
    assert_eq!(sim.board.enemies[0].moves.progress, 1);
    assert_eq!(sim.board.enemies[0].moves.lerp_milli, 200);
    // an enemy at the last cell breaches on the next whole step
    sim.board.enemies.clear();
    sim.board.enemies.push(EnemyUnit {
        enemy: Enemy { health: 3, value: 1 },
        moves: Moves {
            spawn_index: k,
            progress: route_len - 1,
            lerp_milli: 900,
            speed_milli: 1000,
        },
    });
    let breaches_before = sim.board.score.enemy_score;
    handle_enemy_movement(&mut sim.board, &config, 300);
    assert_eq!(sim.board.enemies.len(), 0);
    assert_eq!(sim.board.score.enemy_score, breaches_before + 1);
    assert_eq!(sim.board.score.player_score, 0);
}

#[test]
fn all_plains_routes_have_minimal_length() {
    // board radius 3, seeded; flatten every mountain, then recompute:
    // each route runs straight home, length = distance(spawn, goal) + 1 = 4
    let mut sim = Simulation::new(test_config(3), 41);
    let coords: Vec<Hex> = sim.board.grid.coords.clone();
    for h in coords {
        let i = sim.board.grid.resolve(h).unwrap();
        if sim.board.grid.tiles[i].tile_type == TileType::Mountain {
            toggle_tile(&mut sim.board, h);
        }
    }
    recalculate_enemy_path(&mut sim.board);
    let rs = routes(&sim);
    assert_eq!(rs.len(), 6);
    for (k, r) in rs.iter().enumerate() {
        assert_eq!(r.len(), 4, "route {} should be minimal", k);
        assert_eq!(r[0], sim.board.paths.spawns[k]);
        assert_eq!(*r.last().unwrap(), Hex { x: 0, y: 0 });
    }
    // and all route cells are flagged
    for r in rs.iter() {
        for h in r.iter() {
            let i = sim.board.grid.resolve(*h).unwrap();
            assert!(sim.board.grid.tiles[i].on_path);
        }
    }
}

#[test]
fn toggling_a_path_tile_to_mountain_detours_or_pushes_through() {
    let mut sim = Simulation::new(test_config(3), 43);
    // flatten the board first so the route shape is known
    let coords: Vec<Hex> = sim.board.grid.coords.clone();
    for h in coords {
        let i = sim.board.grid.resolve(h).unwrap();
        if sim.board.grid.tiles[i].tile_type == TileType::Mountain {
            toggle_tile(&mut sim.board, h);
        }
    }
    recalculate_enemy_path(&mut sim.board);
    // raise a mountain on a mid-route cell; the toggled tile is on the path,
    // so the toggle demands a recomputation
    let mid = routes(&sim).iter().find(|r| r.len() >= 3).expect("route")[1];
    assert!(toggle_tile(&mut sim.board, mid));
    // the tile is now a mountain still flagged on-path; toggling it back and
    // forth still reports the recomputation demand
    assert!(toggle_tile(&mut sim.board, mid));
    assert!(toggle_tile(&mut sim.board, mid));
    recalculate_enemy_path(&mut sim.board);
    // every route still reaches the goal from its spawn
    let rs = routes(&sim);
    for (k, r) in rs.iter().enumerate() {
        assert!(!r.is_empty());
        assert_eq!(r[0], sim.board.paths.spawns[k]);
        assert_eq!(*r.last().unwrap(), Hex { x: 0, y: 0 });
    }
}

#[test]
fn toggle_outside_the_grid_is_a_no_op() {
    let mut sim = Simulation::new(test_config(3), 47);
    let tiles_before = sim.board.grid.tiles.clone();
    let cmd = parse_command("toggle 99999,99999").expect("command should parse");
    let cmds = vec![cmd];
    sim.execute_outside_commands(&cmds);
    assert!(sim.board.grid.resolve(Hex { x: 99999, y: 99999 }).is_none());
    assert_eq!(sim.board.grid.tiles, tiles_before);
    assert_eq!(sim.state, AppState::InGame);
}

#[test]
fn toggling_twice_restores_terrain() {
    let mut sim = Simulation::new(test_config(3), 53);
    let h = sim.board.grid.coords[5];
    let i = sim.board.grid.resolve(h).unwrap();
    let before = sim.board.grid.tiles[i];
    toggle_tile(&mut sim.board, h);
    assert_ne!(sim.board.grid.tiles[i].tile_type, before.tile_type);
    toggle_tile(&mut sim.board, h);
    assert_eq!(sim.board.grid.tiles[i], before);
}

#[test]
fn restart_supersedes_the_rest_of_the_batch() {
    let mut sim = Simulation::new(test_config(3), 59);
    sim.board.budget.0 = 1000;
    let budget = sim.board.budget.0;
    // find a placeable cell for the command after the reset
    let coords: Vec<Hex> = sim.board.grid.coords.clone();
    let mut place_cmd = None;
    for h in coords {
        let i = sim.board.grid.resolve(h).unwrap();
        let t = sim.board.grid.tiles[i];
        if !t.has_tower && !t.on_path && !t.is_goal && !t.is_spawn {
            place_cmd = parse_command(&format!("tower {},{} s", h.x, h.y));
            break;
        }
    }
    let cmds = vec![parse_command("reset").unwrap(), place_cmd.unwrap()];
    sim.execute_outside_commands(&cmds);
    assert_eq!(sim.state, AppState::Restart);
    assert_eq!(sim.board.towers.len(), 0);
    assert_eq!(sim.board.budget.0, budget);
}

#[test]
fn match_clock_drives_the_phase_machine() {
    let mut sim = Simulation::new(test_config(2), 61);
    let no_cmds: Vec<hex_defense::communication::TDCommand> = vec![];
    sim.tick(60000, &no_cmds);
    assert_eq!(sim.state, AppState::GameOver);
    sim.tick(5000, &no_cmds);
    assert_eq!(sim.state, AppState::Restart);
    sim.tick(16, &no_cmds);
    assert_eq!(sim.state, AppState::InGame);
    assert_eq!(sim.board.budget.0, 50);
    assert_eq!(sim.board.score.player_score, 0);
    assert_eq!(sim.board.score.enemy_score, 0);
}

#[test]
fn pause_freezes_the_simulation() {
    let mut sim = Simulation::new(test_config(2), 67);
    sim.toggle_pause();
    assert_eq!(sim.state, AppState::Pause);
    let enemies_before = sim.board.enemies.len();
    let timer_before = sim.board.game_timer.0;
    let no_cmds: Vec<hex_defense::communication::TDCommand> = vec![];
    sim.tick(60000, &no_cmds);
    assert_eq!(sim.state, AppState::Pause);
    assert_eq!(sim.board.enemies.len(), enemies_before);
    assert_eq!(sim.board.game_timer.0, timer_before);
    sim.toggle_pause();
    assert_eq!(sim.state, AppState::InGame);
}

#[test]
fn tick_timer_semantics() {
    let mut t = TickTimer::new_repeating(300);
    assert!(!t.tick(100));
    assert_eq!(t.remaining_ms, 200);
    assert!(t.tick(200));
    assert_eq!(t.remaining_ms, 300);
    let mut once = TickTimer::new_once(500);
    assert!(!once.tick(499));
    assert!(once.tick(1));
    assert!(!once.tick(1000));
}

#[test]
fn default_config_matches_the_built_in_values() {
    let c = GameConfig::default();
    assert_eq!(c.map_radius, 20);
    assert_eq!(c.starting_budget, 50);
    assert_eq!(c.tower_config.small.cost, 8);
    assert_eq!(c.tower_config.medium.cost, 20);
    assert_eq!(c.tower_config.large.cost, 50);
    assert_eq!(c.tower_config.damaging_rate_ms, 300);
    assert_eq!(c.enemy_config.enemy_spawn_rate_ms, 200);
    assert_eq!(c.enemy_config.base_speed_milli, 2000);
    assert_eq!(c.enemy_config.min_health, 5);
    assert_eq!(c.enemy_config.max_health, 20);
    assert_eq!(c.game_length_ms, 60000);
    assert_eq!(c.game_over_timer_length_ms, 5000);
}

#[test]
fn damage_level_buckets() {
    assert_eq!(DamageLevel::get_level(0), DamageLevel::Low);
    assert_eq!(DamageLevel::get_level(3), DamageLevel::Low);
    assert_eq!(DamageLevel::get_level(4), DamageLevel::Medium);
    assert_eq!(DamageLevel::get_level(7), DamageLevel::Medium);
    assert_eq!(DamageLevel::get_level(8), DamageLevel::High);
    assert_eq!(DamageLevel::get_level(1000), DamageLevel::High);
}

#[test]
fn towers_on_a_new_path_are_destroyed() {
    let mut sim = Simulation::new(test_config(3), 71);
    sim.board.budget.0 = 10000;
    let config = sim.config;
    // flatten everything for predictable routes
    let coords: Vec<Hex> = sim.board.grid.coords.clone();
    for h in coords.clone() {
        let i = sim.board.grid.resolve(h).unwrap();
        if sim.board.grid.tiles[i].tile_type == TileType::Mountain {
            toggle_tile(&mut sim.board, h);
        }
    }
    recalculate_enemy_path(&mut sim.board);
    // wall in a route cell with mountains so the new route must cross a tower
    // simpler: place towers on every free cell, then force a recomputation by
    // toggling a path tile; whatever new routes emerge, no tower may stand on them
    for h in coords {
        let i = sim.board.grid.resolve(h).unwrap();
        let t = sim.board.grid.tiles[i];
        if !t.has_tower && !t.on_path && !t.is_goal && !t.is_spawn {
            hex_defense::towers::spawn_tower(&mut sim.board, &config, TowerType::Small, h);
        }
    }
    let mid = routes(&sim).iter().find(|r| r.len() >= 3).expect("route")[1];
    assert!(toggle_tile(&mut sim.board, mid));
    recalculate_enemy_path(&mut sim.board);
    for pt in sim.board.towers.iter() {
        let i = sim.board.grid.resolve(pt.pos).unwrap();
        assert!(!sim.board.grid.tiles[i].on_path);
    }
    // the overlay is consistent with the surviving towers on the new path
    for i in 0..sim.board.grid.tiles.len() {
        let h = sim.board.grid.coords[i];
        let t = sim.board.grid.tiles[i];
        let mut sum = 0u32;
        for pt in sim.board.towers.iter() {
            if hex_distance(pt.pos, h) <= pt.tower.tower_type.range() as i64 {
                sum += pt.tower.tower_type.damage();
            }
        }
        match t.damaging {
            Some(d) => assert!(t.on_path && d.value == sum),
            None => assert!(!(t.on_path && sum > 0)),
        }
    }
}

#[test]
fn spawned_enemies_follow_the_configured_ranges() {
    let mut sim = Simulation::new(test_config(3), 73);
    let config = sim.config;
    // force the spawn timer to fire many times
    for _ in 0..20 {
        hex_defense::enemies::spawn_enemies(&mut sim.board, &config, 200, &mut sim.rng);
    }
    assert!(!sim.board.enemies.is_empty());
    for u in sim.board.enemies.iter() {
        assert!(u.enemy.health >= 5 && u.enemy.health <= 20);
        assert_eq!(u.enemy.value, u.enemy.health);
        assert!(u.moves.speed_milli >= 100 && u.moves.speed_milli <= 1000);
        assert_eq!(u.moves.progress, 0);
        assert_eq!(u.moves.lerp_milli, 0);
        assert!(u.moves.spawn_index < 6);
    }
}

#[test]
fn invalid_config_falls_back_to_defaults() {
    let mut bad = test_config(0);  // radius out of range
    bad.starting_budget = 123;
    let sim = Simulation::new(bad, 79);
    assert_eq!(sim.config, GameConfig::default());
    assert_eq!(sim.board.budget.0, 50);
    assert_eq!(sim.board.grid.radius, 20);
}

#[test]
fn several_frames_keep_the_simulation_consistent() {
    let mut sim = Simulation::new(test_config(4), 83);
    let no_cmds: Vec<hex_defense::communication::TDCommand> = vec![];
    for frame in 0..200 {
        let cmds = if frame == 50 {
            vec![parse_command("toggle 1,1").unwrap()]
        } else {
            no_cmds.clone()
        };
        sim.tick(100, &cmds);
        // the structural invariants hold at every observable point
        let goals = sim.board.grid.tiles.iter().filter(|t| t.is_goal).count();
        assert_eq!(goals, 1);
        let spawns = sim.board.grid.tiles.iter().filter(|t| t.is_spawn).count();
        assert_eq!(spawns, 6);
        for u in sim.board.enemies.iter() {
            assert!(u.enemy.health >= 1);
            assert!(u.moves.spawn_index < 6);
        }
    }
    // twenty seconds into the one-minute match, play is still under way
    assert!(matches!(sim.state, AppState::InGame));
}

#[test]
fn commands_before_a_restart_take_effect_in_order() {
    let mut sim = Simulation::new(test_config(3), 89);
    sim.board.budget.0 = 1000;
    // pick a toggle target and a placeable tower cell
    let toggle_at = sim.board.grid.coords[5];
    let i = sim.board.grid.resolve(toggle_at).unwrap();
    let terrain_before = sim.board.grid.tiles[i].tile_type;
    let coords: Vec<Hex> = sim.board.grid.coords.clone();
    let mut tower_at = None;
    for h in coords {
        if h == toggle_at {
            continue;
        }
        let j = sim.board.grid.resolve(h).unwrap();
        let t = sim.board.grid.tiles[j];
        if !t.has_tower && !t.on_path && !t.is_goal && !t.is_spawn {
            tower_at = Some(h);
            break;
        }
    }
    let tower_at = tower_at.expect("a placeable cell should exist");
    let cmds = vec![
        parse_command(&format!("toggle {},{}", toggle_at.x, toggle_at.y)).unwrap(),
        parse_command(&format!("tower {},{} s", tower_at.x, tower_at.y)).unwrap(),
        parse_command("reset").unwrap(),
        parse_command(&format!("tower {},{} m", tower_at.x, tower_at.y)).unwrap(),
    ];
    sim.execute_outside_commands(&cmds);
    // the toggle and the first tower landed; the reset stopped the batch
    assert_eq!(sim.state, AppState::Restart);
    assert_ne!(sim.board.grid.tiles[i].tile_type, terrain_before);
    assert_eq!(sim.board.towers.len(), 1);
    assert_eq!(sim.board.towers[0].pos, tower_at);
    assert_eq!(sim.board.towers[0].tower.tower_type, TowerType::Small);
    assert_eq!(sim.board.budget.0, 1000 - 8);
}
