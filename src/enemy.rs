use crate::geometry::{reaches, step_toward, stepped, travel, Point};
use vstd::prelude::*;

verus! {

/// Speed of a spawned enemy, in world units per millisecond (50 pixels per
/// second).
pub const ENEMY_SPEED: u64 = 50;

/// Health of a spawned enemy.
pub const ENEMY_HEALTH: i32 = 85;

/// Current and maximum health points.
#[derive(Clone, Copy, Debug, PartialEq, Eq, Structural)]
pub struct Health {
    pub current: i32,
    pub max: i32,
}

/// Index of the waypoint an enemy walks toward.
#[derive(Clone, Copy, Debug, PartialEq, Eq, Structural)]
pub struct PathFollower {
    pub path_index: usize,
}

/// Which way an enemy's sprite looks; only the horizontal direction counts.
#[derive(Clone, Copy, Debug, PartialEq, Eq, Structural)]
pub enum Facing {
    Right,
    Left,
}

/// What becomes of an enemy that has walked past the last waypoint.
#[derive(Clone, Copy, Debug, PartialEq, Eq, Structural)]
pub enum EndPolicy {
    /// It stays where it is; the cleanup removes it and a life is lost.
    Escape,
    /// It goes back to the first waypoint and walks the path again.
    Loop,
}

/// An enemy walking the path.
#[derive(Clone, Copy, Debug, PartialEq, Eq, Structural)]
pub struct Enemy {
    pub id: u64,
    pub pos: Point,
    /// World units per millisecond.
    pub speed: u64,
    pub health: Health,
    pub follower: PathFollower,
    pub facing: Facing,
}

pub open spec fn points_in_world(s: Seq<Point>) -> bool {
    forall|i: int| 0 <= i < s.len() ==> (#[trigger] s[i]).in_world()
}

pub open spec fn enemies_in_world(s: Seq<Enemy>) -> bool {
    forall|i: int| 0 <= i < s.len() ==> (#[trigger] s[i]).pos.in_world()
}

/// Facing of a mover at `pos` heading for `target`: it turns toward the side
/// of the target when the horizontal part of the way dominates.
pub open spec fn facing_toward(f: Facing, pos: Point, target: Point) -> Facing {
    let dx = target.x - pos.x;
    let dy = target.y - pos.y;
    let ax = if dx >= 0 {
        dx
    } else {
        -dx
    };
    let ay = if dy >= 0 {
        dy
    } else {
        -dy
    };
    if ax > ay {
        if dx > 0 {
            Facing::Right
        } else {
            Facing::Left
        }
    } else {
        f
    }
}

/// The enemy after one tick of `dt` milliseconds along `path`.
pub open spec fn advanced(e: Enemy, path: Seq<Point>, dt: int, policy: EndPolicy) -> Enemy {
    let idx = e.follower.path_index as int;
    if path.len() == 0 {
        e
    } else if idx >= path.len() {
        match policy {
            EndPolicy::Escape => e,
            EndPolicy::Loop => Enemy { pos: path[0], follower: PathFollower { path_index: 1 }, ..e },
        }
    } else {
        let target = path[idx];
        let step = e.speed * dt;
        Enemy {
            pos: stepped(e.pos, target, step),
            follower: PathFollower {
                path_index: if reaches(e.pos, target, step) {
                    (idx + 1) as usize
                } else {
                    idx as usize
                },
            },
            facing: facing_toward(e.facing, e.pos, target),
            ..e
        }
    }
}

/// The enemy has walked past the last waypoint.
pub open spec fn is_past_end(e: Enemy, path_len: int) -> bool {
    e.follower.path_index >= path_len
}

fn turn_toward(f: Facing, pos: Point, target: Point) -> (r: Facing)
    requires
        pos.in_world(),
        target.in_world(),
    ensures
        r == facing_toward(f, pos, target),
{
    let dx: i64 = target.x - pos.x;
    let dy: i64 = target.y - pos.y;
    let ax: i64 = if dx >= 0 {
        dx
    } else {
        -dx
    };
    let ay: i64 = if dy >= 0 {
        dy
    } else {
        -dy
    };
    if ax > ay {
        if dx > 0 {
            Facing::Right
        } else {
            Facing::Left
        }
    } else {
        f
    }
}

/// Moves an enemy for one tick of `dt` milliseconds: it walks `speed * dt`
/// toward its waypoint; when that covers the remaining distance it stands
/// exactly on the waypoint and heads for the next one.  An enemy past the
/// last waypoint stays put or starts over, as `policy` says.
pub fn advance_enemy(e: &mut Enemy, path: &Vec<Point>, dt: u64, policy: EndPolicy)
    requires
        old(e).pos.in_world(),
        points_in_world(path@),
    ensures
        *final(e) == advanced(*old(e), path@, dt as int, policy),
        final(e).pos.in_world(),
        old(e).follower.path_index < path@.len() && reaches(
            old(e).pos,
            path@[old(e).follower.path_index as int],
            old(e).speed * dt,
        ) ==> final(e).pos == path@[old(e).follower.path_index as int]
            && final(e).follower.path_index == old(e).follower.path_index + 1,
{
    if path.len() == 0 {
        return ;
    }
    let idx = e.follower.path_index;
    if idx >= path.len() {
        match policy {
            EndPolicy::Escape => {},
            EndPolicy::Loop => {
                e.pos = path[0];
                e.follower = PathFollower { path_index: 1 };
            },
        }
        return ;
    }
    let target = path[idx];
    let step = travel(e.speed, dt);
    let facing = turn_toward(e.facing, e.pos, target);
    let (pos, reached) = step_toward(e.pos, target, step);
    e.pos = pos;
    e.facing = facing;
    if reached {
        e.follower = PathFollower { path_index: idx + 1 };
    }
}

/// Moves every enemy for one tick, each as `advance_enemy` does.
pub fn move_enemies(enemies: &mut Vec<Enemy>, path: &Vec<Point>, dt: u64, policy: EndPolicy)
    requires
        enemies_in_world(old(enemies)@),
        points_in_world(path@),
    ensures
        final(enemies)@.len() == old(enemies)@.len(),
        forall|i: int|
            0 <= i < old(enemies)@.len() ==> final(enemies)@[i] == #[trigger] advanced(
                old(enemies)@[i],
                path@,
                dt as int,
                policy,
            ),
        enemies_in_world(final(enemies)@),
{
    let n = enemies.len();
    let mut i: usize = 0;
    while i < n
        invariant
            n == enemies@.len(),
            n == old(enemies)@.len(),
            0 <= i <= n,
            points_in_world(path@),
            forall|j: int| i <= j < n ==> enemies@[j] == old(enemies)@[j],
            forall|j: int|
                0 <= j < i ==> enemies@[j] == #[trigger] advanced(
                    old(enemies)@[j],
                    path@,
                    dt as int,
                    policy,
                ),
            enemies_in_world(old(enemies)@),
            enemies_in_world(enemies@),
        decreases n - i,
    {
        let mut e = enemies[i];
        advance_enemy(&mut e, path, dt, policy);
        enemies.set(i, e);
        i = i + 1;
    }
}

/// Health as a fraction of the maximum, in thousandths, kept within 0 to
/// 1000; 0 when the maximum is not positive.
pub open spec fn ratio_permille(h: Health) -> int {
    if h.max <= 0 || h.current <= 0 {
        0
    } else if h.current >= h.max {
        1000
    } else {
        (h.current * 1000) as int / (h.max as int)
    }
}

pub fn health_ratio(h: Health) -> (r: u64)
    ensures
        r == ratio_permille(h),
        r <= 1000,
{
    if h.max <= 0 || h.current <= 0 {
        0
    } else if h.current >= h.max {
        1000
    } else {
        let c = h.current as i64;
        let m = h.max as i64;
        assert((c * 1000) as int / (m as int) <= 1000) by (nonlinear_arith)
            requires
                0 < c < m,
        ;
        assert((c * 1000) as int / (m as int) >= 0) by (nonlinear_arith)
            requires
                0 < c < m,
        ;
        (c * 1000 / m) as u64
    }
}

/// The first enemy with the given identifier.
pub open spec fn is_first_with_id(s: Seq<Enemy>, id: u64, i: int) -> bool {
    0 <= i < s.len() && s[i].id == id && forall|j: int| 0 <= j < i ==> s[j].id != id
}

pub open spec fn has_id(s: Seq<Enemy>, id: u64) -> bool {
    exists|i: int| 0 <= i < s.len() && s[i].id == id
}

/// Looks an enemy up by its identifier.
pub fn find_enemy(enemies: &Vec<Enemy>, id: u64) -> (r: Option<usize>)
    ensures
        r matches Some(i) ==> is_first_with_id(enemies@, id, i as int),
        r is None <==> !has_id(enemies@, id),
{
    let mut i: usize = 0;
    while i < enemies.len()
        invariant
            0 <= i <= enemies@.len(),
            forall|j: int| 0 <= j < i ==> enemies@[j].id != id,
        decreases enemies@.len() - i,
    {
        if enemies[i].id == id {
            return Some(i);
        }
        i = i + 1;
    }
    None
}

/// The bar drawn above an enemy: it refers to its owner by identifier and is
/// scaled to the owner's health each tick.
#[derive(Clone, Copy, Debug, PartialEq, Eq, Structural)]
pub struct HealthBar {
    pub owner: u64,
}

impl HealthBar {
    /// Width of the bar in thousandths of its full width, or `None` when the
    /// owner is gone.
    pub fn scale_permille(&self, enemies: &Vec<Enemy>) -> (r: Option<u64>)
        ensures
            r is None <==> !has_id(enemies@, self.owner),
            r matches Some(v) ==> exists|i: int|
                is_first_with_id(enemies@, self.owner, i) && v == ratio_permille(
                    #[trigger] enemies@[i].health,
                ),
    {
        match find_enemy(enemies, self.owner) {
            None => None,
            Some(i) => Some(health_ratio(enemies[i].health)),
        }
    }
}

} // verus!
