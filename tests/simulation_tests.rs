use tower_defense::enemy::{EndPolicy, Enemy, Facing, Health, PathFollower, ENEMY_HEALTH, ENEMY_SPEED};
use tower_defense::geometry::Point;
use tower_defense::grid::{cell_at, cell_center, TileGrid};
use tower_defense::lifecycle::{cleanup, PlayerStats, KILL_REWARD};
use tower_defense::path::{extract, Path};
use tower_defense::projectile::{Projectile, PROJECTILE_SPEED};
use tower_defense::simulation::{stress_tower_type, SpawnMode, Simulation};
use tower_defense::spawn::{new_enemy, spawn_enemies, SpawnTimer, StressSpawner};
use tower_defense::sprites::{get_atlas_index, tile_sprite, Overlay, TileSprite, Turn};
use tower_defense::tower::TowerType;

fn enemy(id: u64, health: i32, index: usize) -> Enemy {
    Enemy {
        id,
        pos: Point::new(0, 0),
        speed: 50,
        health: Health { current: health, max: 85 },
        follower: PathFollower { path_index: index },
        facing: Facing::Right,
    }
}

/// A 10 by 10 level: a road along row 4 from the start at column 0 to the end
/// at column 9, grass above it, water below.
fn level() -> TileGrid {
    let side = 10;
    let mut ids = vec![1u32; side * side];
    for x in 0..side {
        for y in 0..4 {
            ids[y * side + x] = 0;
        }
        ids[4 * side + x] = 2;
    }
    ids[4 * side] = 20;
    ids[4 * side + 9] = 21;
    TileGrid::new(side, ids).unwrap()
}

fn steady(period_ms: u64) -> Simulation {
    let path = extract(&level()).unwrap();
    Simulation::new(path, PlayerStats::new(20, 0), SpawnMode::Steady(SpawnTimer::new(period_ms))).unwrap()
}

#[test]
fn spawn_timer_repeats() {
    let mut t = SpawnTimer::new(1500);
    assert!(!t.tick(1000));
    assert!(t.tick(600));
    assert_eq!(t.elapsed_ms, 100);
    assert!(t.tick(3000));
    assert_eq!(t.elapsed_ms, 100);
    let mut z = SpawnTimer::new(0);
    assert!(z.tick(0));
}

#[test]
fn stress_batch_grows_every_ten_seconds() {
    let mut s = StressSpawner::new();
    assert_eq!(s.tick(9_999), 10);
    assert_eq!(s.tick(1), 10);
    assert_eq!(s.tick(10_000), 11);
    assert_eq!(s.tick(0), 12);
    assert_eq!(s.elapsed_ms, 20_000);
}

#[test]
fn spawned_enemies_start_at_first_waypoint() {
    let start = Point::new(-5, 7);
    let e = new_enemy(3, start);
    assert_eq!(e.pos, start);
    assert_eq!(e.follower.path_index, 1);
    assert_eq!(e.speed, ENEMY_SPEED);
    assert_eq!(e.health, Health { current: ENEMY_HEALTH, max: ENEMY_HEALTH });
    let mut es = vec![];
    spawn_enemies(&mut es, 10, 3, start);
    assert_eq!(es.iter().map(|e| e.id).collect::<Vec<_>>(), vec![10, 11, 12]);
}

#[test]
fn cleanup_rewards_kills_and_costs_escapes() {
    let mut es = vec![enemy(0, 0, 1), enemy(1, 50, 5), enemy(2, 50, 2), enemy(3, -5, 9)];
    let mut stats = PlayerStats::new(20, 100);
    let (killed, escaped) = cleanup(&mut es, 5, EndPolicy::Escape, &mut stats);
    assert_eq!((killed, escaped), (2, 1));
    assert_eq!(stats.money, 100 + 2 * KILL_REWARD);
    assert_eq!(stats.lives, 19);
    assert_eq!(es.len(), 1);
    assert_eq!(es[0].id, 2);
    // when looping, nobody escapes
    let mut es = vec![enemy(0, 50, 5)];
    let (killed, escaped) = cleanup(&mut es, 5, EndPolicy::Loop, &mut stats);
    assert_eq!((killed, escaped, es.len()), (0, 0, 1));
}

#[test]
fn sixth_hit_kills_and_pays() {
    let path = Path { points: vec![Point::new(0, 0), Point::new(1_000_000, 0)], complete: true };
    let mut sim = Simulation::new(path, PlayerStats::new(20, 0), SpawnMode::Steady(SpawnTimer::new(1_000_000))).unwrap();
    sim.enemies.push(Enemy { speed: 0, ..new_enemy(0, Point::new(0, 0)) });
    sim.spawned = 1;
    for hit in 1..=6 {
        sim.projectiles.push(Projectile {
            pos: Point::new(0, 0),
            target: 0,
            damage: 15,
            speed: PROJECTILE_SPEED,
            heading: Point::new(0, 0),
        });
        assert!(sim.can_tick(16));
        sim.tick(16);
        if hit < 6 {
            assert_eq!(sim.enemies[0].health.current, 85 - 15 * hit);
        }
        if hit == 5 {
            assert_eq!(sim.enemies[0].health.current, 10);
        }
    }
    assert!(sim.enemies.is_empty());
    assert_eq!(sim.killed, 1);
    assert_eq!(sim.stats.money, KILL_REWARD);
}

#[test]
fn steady_game_spawns_walks_and_loses_lives() {
    let mut sim = steady(1500);
    let path_len = sim.path.points.len();
    assert_eq!(path_len, 10);
    assert!(sim.path.complete);
    sim.tick(1500);
    // spawned at the first waypoint, then walked: one waypoint per tick at most
    assert_eq!(sim.enemies.len(), 1);
    assert_eq!(sim.enemies[0].pos, sim.path.points[1]);
    assert_eq!(sim.enemies[0].follower.path_index, 2);
    // 9 tiles of 32000 units at 50 units per ms: under 6 s to the end
    let mut t = 0;
    while sim.escaped == 0 && t < 1000 {
        assert!(sim.can_tick(100));
        sim.tick(100);
        t += 1;
    }
    assert_eq!(sim.escaped, 1);
    assert_eq!(sim.stats.lives, 19);
    assert!(sim.killed + sim.escaped + sim.enemies.len() as u64 == sim.spawned);
}

#[test]
fn removed_never_exceed_spawned_over_a_session() {
    let grid = level();
    let mut sim = steady(700);
    assert!(sim.place_tower(&grid, 3, 3, TowerType::Wizard));
    assert!(sim.place_tower(&grid, 6, 3, TowerType::Archer));
    assert!(sim.place_tower(&grid, 8, 3, TowerType::Canon));
    for _ in 0..2000 {
        assert!(sim.can_tick(16));
        sim.tick(16);
        assert!(sim.killed + sim.escaped <= sim.spawned);
        assert_eq!(sim.killed + sim.escaped + sim.enemies.len() as u64, sim.spawned);
    }
    assert!(sim.spawned > 0);
    assert!(sim.killed > 0);
    assert_eq!(sim.stats.money, KILL_REWARD * sim.killed as i64);
    assert_eq!(sim.stats.lives, 20 - sim.escaped as i64);
}

#[test]
fn towers_go_on_grass_only() {
    let grid = level();
    let mut sim = steady(1500);
    assert!(!sim.place_tower(&grid, 2, 4, TowerType::Canon));
    assert!(!sim.place_tower(&grid, 2, 8, TowerType::Canon));
    assert!(!sim.place_tower(&grid, 10, 0, TowerType::Canon));
    assert!(sim.place_tower(&grid, 2, 1, TowerType::Archer));
    assert_eq!(sim.towers.len(), 1);
    assert_eq!(sim.towers[0].pos, cell_center(10, 2, 1));
    assert_eq!(sim.towers[0].range, 120_000);
}

#[test]
fn stress_run_builds_towers_and_loops() {
    let grid = level();
    assert_eq!(stress_tower_type(&grid, 5, 3), TowerType::Canon);
    assert_eq!(stress_tower_type(&grid, 5, 2), TowerType::Archer);
    assert_eq!(stress_tower_type(&grid, 0, 0), TowerType::Archer);
    let path = extract(&grid).unwrap();
    let mut sim = Simulation::new(path, PlayerStats::new(20, 0), SpawnMode::Stress(StressSpawner::new())).unwrap();
    sim.place_stress_towers(&grid);
    assert_eq!(sim.towers.len(), 40);
    assert_eq!(sim.towers.iter().filter(|t| t.range == 75_000).count(), 10);
    sim.tick(16);
    assert_eq!(sim.spawned, 10);
    for _ in 0..100 {
        sim.tick(160);
    }
    assert_eq!(sim.escaped, 0);
    assert_eq!(sim.stats.lives, 20);
    assert_eq!(sim.spawned, 10 + 10 * 63 + 11 * 37);
    assert_eq!(sim.killed + sim.enemies.len() as u64, sim.spawned);
}

#[test]
fn empty_path_spawns_nothing() {
    let path = Path { points: vec![], complete: false };
    let mut sim = Simulation::new(path, PlayerStats::new(20, 0), SpawnMode::Stress(StressSpawner::new())).unwrap();
    sim.tick(16);
    assert_eq!(sim.spawned, 0);
    let path = Path { points: vec![Point::new(2_000_000_000, 0)], complete: false };
    assert!(Simulation::new(path, PlayerStats::new(20, 0), SpawnMode::Steady(SpawnTimer::new(10))).is_none());
}

#[test]
fn clicks_map_to_cells() {
    let c = cell_center(20, 4, 7);
    assert_eq!(cell_at(20, c), Some((4, 7)));
    assert_eq!(cell_at(20, Point::new(c.x - 16_000, c.y + 16_000)), Some((4, 7)));
    assert_eq!(cell_at(20, Point::new(c.x + 16_000, c.y)), Some((5, 7)));
    assert_eq!(cell_at(20, Point::new(c.x, c.y - 16_000)), Some((4, 8)));
    assert_eq!(cell_at(20, Point::new(-320_001, 0)), None);
    assert_eq!(cell_at(20, Point::new(0, 370_001)), None);
    assert_eq!(cell_at(20, Point::new(0, -270_000)), None);
}

#[test]
fn tile_sprites() {
    assert_eq!(get_atlas_index(7, 2), 27);
    assert_eq!(tile_sprite(0), TileSprite { base: 9, base_turn: Turn::Upright, overlay: None });
    assert_eq!(tile_sprite(5), TileSprite { base: 7, base_turn: Turn::Clockwise, overlay: None });
    assert_eq!(
        tile_sprite(14),
        TileSprite { base: 0, base_turn: Turn::Upright, overlay: Some(Overlay { sprite: 6, turn: Turn::Half }) }
    );
    assert_eq!(
        tile_sprite(20),
        TileSprite { base: 8, base_turn: Turn::Upright, overlay: Some(Overlay { sprite: 27, turn: Turn::Upright }) }
    );
    assert_eq!(tile_sprite(99), TileSprite { base: 0, base_turn: Turn::Upright, overlay: None });
}
