use tower_defense::enemy::{
    advance_enemy, health_ratio, move_enemies, EndPolicy, Enemy, Facing, Health, HealthBar,
    PathFollower,
};
use tower_defense::geometry::{distance_squared, isqrt, step_toward, travel, Point};

fn enemy_at(id: u64, x: i64, y: i64, speed: u64, index: usize) -> Enemy {
    Enemy {
        id,
        pos: Point::new(x, y),
        speed,
        health: Health { current: 85, max: 85 },
        follower: PathFollower { path_index: index },
        facing: Facing::Right,
    }
}

#[test]
fn integer_square_root() {
    assert_eq!(isqrt(0), 0);
    assert_eq!(isqrt(1), 1);
    assert_eq!(isqrt(24), 4);
    assert_eq!(isqrt(25), 5);
    assert_eq!(isqrt(26), 5);
    assert_eq!(isqrt(u64::MAX), 4_294_967_295);
}

#[test]
fn squared_distance() {
    assert_eq!(distance_squared(Point::new(0, 0), Point::new(3, 4)), 25);
    assert_eq!(distance_squared(Point::new(-5, 7), Point::new(-5, 7)), 0);
    assert_eq!(
        distance_squared(Point::new(-1_000_000_000, -1_000_000_000), Point::new(1_000_000_000, 1_000_000_000)),
        8_000_000_000_000_000_000
    );
    assert_eq!(travel(50, 16), 800);
}

#[test]
fn step_along_a_diagonal() {
    let (p, reached) = step_toward(Point::new(0, 0), Point::new(3000, 4000), 1000);
    assert!(!reached);
    assert_eq!(p, Point::new(600, 800));
    let (p, reached) = step_toward(Point::new(0, 0), Point::new(-3000, -4000), 1000);
    assert!(!reached);
    assert_eq!(p, Point::new(-600, -800));
}

#[test]
fn step_that_covers_the_distance_snaps_to_target() {
    let (p, reached) = step_toward(Point::new(10, 10), Point::new(3010, 4010), 5000);
    assert!(reached);
    assert_eq!(p, Point::new(3010, 4010));
    let (p, reached) = step_toward(Point::new(10, 10), Point::new(3010, 4010), 4999);
    assert!(!reached);
    assert_ne!(p, Point::new(3010, 4010));
}

#[test]
fn enemy_snaps_to_waypoint_and_advances() {
    let path = vec![Point::new(0, 0), Point::new(1000, 0), Point::new(1000, 1000)];
    // speed 50 over 20 ms covers exactly the remaining 1000 units
    let mut e = enemy_at(0, 0, 0, 50, 1);
    advance_enemy(&mut e, &path, 20, EndPolicy::Escape);
    assert_eq!(e.pos, Point::new(1000, 0));
    assert_eq!(e.follower.path_index, 2);
    // a step longer than the distance does not overshoot
    let mut e = enemy_at(0, 400, 0, 50, 1);
    advance_enemy(&mut e, &path, 100, EndPolicy::Escape);
    assert_eq!(e.pos, Point::new(1000, 0));
    assert_eq!(e.follower.path_index, 2);
}

#[test]
fn enemy_walks_part_of_the_way() {
    let path = vec![Point::new(0, 0), Point::new(32_000, 0)];
    let mut e = enemy_at(0, 0, 0, 50, 1);
    advance_enemy(&mut e, &path, 16, EndPolicy::Escape);
    assert_eq!(e.pos, Point::new(800, 0));
    assert_eq!(e.follower.path_index, 1);
    assert_eq!(e.facing, Facing::Right);
}

#[test]
fn enemy_faces_left_when_walking_left() {
    let path = vec![Point::new(0, 0), Point::new(-32_000, 100)];
    let mut e = enemy_at(0, 0, 0, 50, 1);
    advance_enemy(&mut e, &path, 16, EndPolicy::Escape);
    assert_eq!(e.facing, Facing::Left);
    // walking mostly vertically keeps the facing
    let path = vec![Point::new(0, 0), Point::new(100, -32_000)];
    let mut e = enemy_at(0, 0, 0, 50, 1);
    e.facing = Facing::Left;
    advance_enemy(&mut e, &path, 16, EndPolicy::Escape);
    assert_eq!(e.facing, Facing::Left);
}

#[test]
fn enemy_past_end_stays_or_loops() {
    let path = vec![Point::new(0, 0), Point::new(1000, 0)];
    let mut e = enemy_at(0, 1000, 0, 50, 2);
    advance_enemy(&mut e, &path, 16, EndPolicy::Escape);
    assert_eq!(e.pos, Point::new(1000, 0));
    assert_eq!(e.follower.path_index, 2);
    advance_enemy(&mut e, &path, 16, EndPolicy::Loop);
    assert_eq!(e.pos, Point::new(0, 0));
    assert_eq!(e.follower.path_index, 1);
}

#[test]
fn empty_path_moves_nobody() {
    let path: Vec<Point> = vec![];
    let mut e = enemy_at(0, 5, 5, 50, 1);
    advance_enemy(&mut e, &path, 16, EndPolicy::Loop);
    assert_eq!(e, enemy_at(0, 5, 5, 50, 1));
}

#[test]
fn all_enemies_move() {
    let path = vec![Point::new(0, 0), Point::new(10_000, 0)];
    let mut es = vec![enemy_at(0, 0, 0, 50, 1), enemy_at(1, 5000, 0, 10, 1)];
    move_enemies(&mut es, &path, 10, EndPolicy::Escape);
    assert_eq!(es[0].pos, Point::new(500, 0));
    assert_eq!(es[1].pos, Point::new(5100, 0));
}

#[test]
fn health_ratio_is_clamped() {
    assert_eq!(health_ratio(Health { current: 85, max: 85 }), 1000);
    assert_eq!(health_ratio(Health { current: 10, max: 85 }), 117);
    assert_eq!(health_ratio(Health { current: -5, max: 85 }), 0);
    assert_eq!(health_ratio(Health { current: 100, max: 85 }), 1000);
    assert_eq!(health_ratio(Health { current: 5, max: 0 }), 0);
}

#[test]
fn health_bar_follows_its_owner() {
    let mut es = vec![enemy_at(3, 0, 0, 50, 1), enemy_at(7, 0, 0, 50, 1)];
    es[1].health.current = 40;
    assert_eq!(HealthBar { owner: 7 }.scale_permille(&es), Some(470));
    assert_eq!(HealthBar { owner: 3 }.scale_permille(&es), Some(1000));
    assert_eq!(HealthBar { owner: 5 }.scale_permille(&es), None);
}
