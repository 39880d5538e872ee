use tower_defense::combat::{fire_tower, fire_towers};
use tower_defense::enemy::{Enemy, Facing, Health, PathFollower};
use tower_defense::geometry::Point;
use tower_defense::projectile::{advance_projectile, move_projectiles, Projectile, PROJECTILE_SPEED};
use tower_defense::tower::{select_target, tick_cooldown, Tower, TowerType};

fn enemy_at(id: u64, x: i64, y: i64) -> Enemy {
    Enemy {
        id,
        pos: Point::new(x, y),
        speed: 50,
        health: Health { current: 85, max: 85 },
        follower: PathFollower { path_index: 1 },
        facing: Facing::Right,
    }
}

fn projectile_at(x: i64, y: i64, target: u64, damage: i32) -> Projectile {
    Projectile {
        pos: Point::new(x, y),
        target,
        damage,
        speed: PROJECTILE_SPEED,
        heading: Point::new(0, 0),
    }
}

#[test]
fn archetype_stats() {
    assert_eq!(TowerType::Canon.get_stats(), (75_000, 15, 1200));
    assert_eq!(TowerType::Archer.get_stats(), (120_000, 5, 350));
    assert_eq!(TowerType::Wizard.get_stats(), (100_000, 30, 2000));
    assert_eq!(TowerType::Canon.get_sprite_index(), 14);
    assert_eq!(TowerType::Archer.get_sprite_index(), 15);
    assert_eq!(TowerType::Wizard.get_sprite_index(), 16);
    let t = Tower::new(TowerType::Wizard, Point::new(1, 2));
    assert_eq!((t.pos, t.range, t.damage, t.period_ms, t.elapsed_ms), (Point::new(1, 2), 100_000, 30, 2000, 0));
}

#[test]
fn target_at_exact_range_counts() {
    let c = Point::new(0, 0);
    // 3-4-5 triangle: distance exactly 5000
    let es = vec![enemy_at(0, 3000, 4000)];
    assert_eq!(select_target(c, 5000, &es), Some(0));
    assert_eq!(select_target(c, 4999, &es), None);
    let es = vec![enemy_at(0, 75_000, 0)];
    assert_eq!(select_target(c, 75_000, &es), Some(0));
    let es = vec![enemy_at(0, 75_001, 0)];
    assert_eq!(select_target(c, 75_000, &es), None);
}

#[test]
fn nearest_enemy_in_range_is_chosen() {
    let c = Point::new(0, 0);
    let es = vec![enemy_at(0, 900, 0), enemy_at(1, 0, 300), enemy_at(2, 100, 0), enemy_at(3, 0, -500)];
    assert_eq!(select_target(c, 1000, &es), Some(2));
    assert_eq!(select_target(c, 50, &es), None);
    let empty: Vec<Enemy> = vec![];
    assert_eq!(select_target(c, 1000, &empty), None);
}

#[test]
fn tie_goes_to_first_in_order() {
    let c = Point::new(0, 0);
    let es = vec![enemy_at(0, 800, 0), enemy_at(1, 0, 500), enemy_at(2, -500, 0), enemy_at(3, 300, 400)];
    assert_eq!(select_target(c, 1000, &es), Some(1));
}

#[test]
fn cooldown_fires_at_period_and_waits_for_a_target() {
    let mut t = Tower::new(TowerType::Canon, Point::new(0, 0));
    assert!(!tick_cooldown(&mut t, 1000));
    assert_eq!(t.elapsed_ms, 1000);
    assert!(tick_cooldown(&mut t, 500));
    assert_eq!(t.elapsed_ms, 1200);
    // no enemy: the cooldown stays expired and nothing is fired
    let none: Vec<Enemy> = vec![];
    assert_eq!(fire_tower(&mut t, &none, 16), None);
    assert_eq!(t.elapsed_ms, 1200);
    // an enemy in range: one shot, cooldown back to zero
    let es = vec![enemy_at(9, 10_000, 0)];
    let shot = fire_tower(&mut t, &es, 16).expect("fires");
    assert_eq!(shot, projectile_at(0, 0, 9, 15));
    assert_eq!(t.elapsed_ms, 0);
    assert_eq!(fire_tower(&mut t, &es, 16), None);
    assert_eq!(t.elapsed_ms, 16);
}

#[test]
fn towers_fire_in_order() {
    let mut towers = vec![
        Tower::new(TowerType::Archer, Point::new(0, 0)),
        Tower::new(TowerType::Canon, Point::new(1_000_000, 0)),
        Tower::new(TowerType::Wizard, Point::new(0, 1000)),
    ];
    let es = vec![enemy_at(4, 0, 500), enemy_at(5, 0, 900)];
    let mut shots = vec![projectile_at(7, 7, 1, 1)];
    fire_towers(&mut towers, &es, &mut shots, 2000);
    assert_eq!(shots.len(), 3);
    assert_eq!(shots[1], projectile_at(0, 0, 4, 5));
    assert_eq!(shots[2], projectile_at(0, 1000, 5, 30));
    assert_eq!(towers[0].elapsed_ms, 0);
    assert_eq!(towers[1].elapsed_ms, 1200);
    assert_eq!(towers[2].elapsed_ms, 0);
}

#[test]
fn projectile_flies_toward_target() {
    let mut es = vec![enemy_at(1, 30_000, 40_000)];
    let p = projectile_at(0, 0, 1, 15);
    let q = advance_projectile(p, &mut es, 10).expect("still flying");
    // 300 units per ms for 10 ms along a 3-4-5 direction
    assert_eq!(q.pos, Point::new(1800, 2400));
    assert_eq!(q.heading, Point::new(30_000, 40_000));
    assert_eq!(es[0].health.current, 85);
}

#[test]
fn projectile_hits_and_disappears() {
    let mut es = vec![enemy_at(1, 0, 0), enemy_at(2, 1000, 0)];
    let p = projectile_at(0, 2000, 2, 15);
    assert_eq!(advance_projectile(p, &mut es, 10), None);
    assert_eq!(es[1].health.current, 70);
    assert_eq!(es[0].health.current, 85);
}

#[test]
fn projectile_without_target_is_dropped() {
    let mut es = vec![enemy_at(1, 0, 0)];
    let p = projectile_at(0, 0, 42, 15);
    assert_eq!(advance_projectile(p, &mut es, 10), None);
    assert_eq!(es[0].health.current, 85);
}

#[test]
fn six_cannon_hits_kill_a_fresh_enemy() {
    let mut es = vec![enemy_at(1, 0, 0)];
    for hit in 1..=6 {
        let mut ps = vec![projectile_at(0, 0, 1, 15)];
        move_projectiles(&mut ps, &mut es, 16);
        assert!(ps.is_empty());
        if hit == 5 {
            assert_eq!(es[0].health.current, 10);
            assert!(es[0].health.current > 0);
        }
    }
    assert_eq!(es[0].health.current, -5);
    assert!(es[0].health.current <= 0);
}

#[test]
fn projectiles_resolve_in_order() {
    let mut es = vec![enemy_at(1, 0, 0), enemy_at(2, 50_000, 0)];
    let mut ps = vec![
        projectile_at(0, 0, 1, 15),
        projectile_at(0, 0, 2, 15),
        projectile_at(0, 0, 3, 15),
        projectile_at(0, 0, 1, 100),
    ];
    move_projectiles(&mut ps, &mut es, 10);
    assert_eq!(ps.len(), 1);
    assert_eq!(ps[0].target, 2);
    assert_eq!(ps[0].pos, Point::new(3000, 0));
    assert_eq!(es[0].health.current, 85 - 15 - 100);
}
