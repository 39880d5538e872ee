use crate::enemy::{enemies_in_world, find_enemy, has_id, is_first_with_id, Enemy, Health};
use crate::geometry::{reaches, step_toward, stepped, travel, Point};
use vstd::prelude::*;

verus! {

/// Speed of a projectile, in world units per millisecond (300 pixels per
/// second).
pub const PROJECTILE_SPEED: u64 = 300;

/// A projectile homing on one enemy.
#[derive(Clone, Copy, Debug, PartialEq, Eq, Structural)]
pub struct Projectile {
    pub pos: Point,
    /// Identifier of the enemy it flies at.
    pub target: u64,
    pub damage: i32,
    /// World units per millisecond.
    pub speed: u64,
    /// The way it last flew, as a vector; its angle orients the sprite.
    pub heading: Point,
}

pub open spec fn projectiles_in_world(s: Seq<Projectile>) -> bool {
    forall|i: int| 0 <= i < s.len() ==> (#[trigger] s[i]).pos.in_world()
}

/// Health after a hit of `damage`, kept within the range of `i32`.
pub open spec fn hit_health(current: i32, damage: i32) -> i32 {
    let v = current - damage;
    if v < i32::MIN {
        i32::MIN
    } else if v > i32::MAX {
        i32::MAX
    } else {
        v as i32
    }
}

/// The enemy after a hit of `damage`.
pub open spec fn hit(e: Enemy, damage: i32) -> Enemy {
    Enemy { health: Health { current: hit_health(e.health.current, damage), ..e.health }, ..e }
}

pub open spec fn target_index(es: Seq<Enemy>, id: u64) -> int {
    choose|i: int| is_first_with_id(es, id, i)
}

/// One tick of `dt` milliseconds of a projectile: the projectile that stays
/// in flight, if any, and the enemies afterwards.  A projectile whose target
/// is gone is dropped; one that reaches its target hits it and is dropped;
/// any other flies on toward the target.
pub open spec fn projectile_outcome(p: Projectile, es: Seq<Enemy>, dt: int) -> (
    Option<Projectile>,
    Seq<Enemy>,
) {
    if !has_id(es, p.target) {
        (None, es)
    } else {
        let i = target_index(es, p.target);
        let goal = es[i].pos;
        let step = p.speed * dt;
        if reaches(p.pos, goal, step) {
            (None, es.update(i, hit(es[i], p.damage)))
        } else {
            (
                Some(
                    Projectile {
                        pos: stepped(p.pos, goal, step),
                        heading: Point { x: (goal.x - p.pos.x) as i64, y: (goal.y - p.pos.y) as i64 },
                        ..p
                    },
                ),
                es,
            )
        }
    }
}

/// All projectiles of `ps` resolved one after the other, in order.
pub open spec fn resolved(ps: Seq<Projectile>, es: Seq<Enemy>, dt: int) -> (
    Seq<Projectile>,
    Seq<Enemy>,
)
    decreases ps.len(),
{
    if ps.len() == 0 {
        (seq![], es)
    } else {
        let before = resolved(ps.drop_last(), es, dt);
        let step = projectile_outcome(ps.last(), before.1, dt);
        (
            match step.0 {
                Some(q) => before.0.push(q),
                None => before.0,
            },
            step.1,
        )
    }
}

fn apply_hit(current: i32, damage: i32) -> (r: i32)
    ensures
        r == hit_health(current, damage),
{
    let v: i64 = current as i64 - damage as i64;
    if v < i32::MIN as i64 {
        i32::MIN
    } else if v > i32::MAX as i64 {
        i32::MAX
    } else {
        v as i32
    }
}

/// Resolves one projectile for a tick of `dt` milliseconds, as
/// `projectile_outcome` says; the projectile that stays in flight is
/// returned.
pub fn advance_projectile(p: Projectile, enemies: &mut Vec<Enemy>, dt: u64) -> (r: Option<
    Projectile,
>)
    requires
        p.pos.in_world(),
        enemies_in_world(old(enemies)@),
    ensures
        (r, final(enemies)@) == projectile_outcome(p, old(enemies)@, dt as int),
        enemies_in_world(final(enemies)@),
        r matches Some(q) ==> q.pos.in_world(),
{
    match find_enemy(enemies, p.target) {
        None => None,
        Some(i) => {
            proof {
                let k = choose|k: int| is_first_with_id(old(enemies)@, p.target, k);
                assert(k == i as int);
            }
            let goal = enemies[i].pos;
            let step = travel(p.speed, dt);
            let (pos, reached) = step_toward(p.pos, goal, step);
            if reached {
                let e = enemies[i];
                let health = Health { current: apply_hit(e.health.current, p.damage), ..e.health };
                enemies.set(i, Enemy { health, ..e });
                proof {
                    assert(enemies@ =~= old(enemies)@.update(i as int, hit(old(enemies)@[i as int], p.damage)));
                }
                None
            } else {
                Some(
                    Projectile {
                        pos,
                        heading: Point { x: goal.x - p.pos.x, y: goal.y - p.pos.y },
                        ..p
                    },
                )
            }
        },
    }
}

/// Moves every projectile for one tick, in order: the projectiles still in
/// flight stay, in their order, and hits lower the targets' health.
pub fn move_projectiles(projectiles: &mut Vec<Projectile>, enemies: &mut Vec<Enemy>, dt: u64)
    requires
        projectiles_in_world(old(projectiles)@),
        enemies_in_world(old(enemies)@),
    ensures
        (final(projectiles)@, final(enemies)@) == resolved(
            old(projectiles)@,
            old(enemies)@,
            dt as int,
        ),
        projectiles_in_world(final(projectiles)@),
        enemies_in_world(final(enemies)@),
{
    let ghost ps0 = projectiles@;
    let ghost es0 = enemies@;
    let mut kept: Vec<Projectile> = Vec::new();
    let mut i: usize = 0;
    while i < projectiles.len()
        invariant
            projectiles@ == ps0,
            0 <= i <= ps0.len(),
            projectiles_in_world(ps0),
            enemies_in_world(enemies@),
            projectiles_in_world(kept@),
            (kept@, enemies@) == resolved(ps0.take(i as int), es0, dt as int),
        decreases ps0.len() - i,
    {
        let p = projectiles[i];
        proof {
            assert(ps0.take(i as int + 1).drop_last() =~= ps0.take(i as int));
        }
        match advance_projectile(p, enemies, dt) {
            Some(q) => {
                kept.push(q);
            },
            None => {},
        }
        i = i + 1;
    }
    assert(ps0.take(ps0.len() as int) =~= ps0);
    *projectiles = kept;
}

proof fn lemma_first_with_id_exists(es: Seq<Enemy>, id: u64)
    requires
        has_id(es, id),
    ensures
        is_first_with_id(es, id, target_index(es, id)),
    decreases es.len(),
{
    let last = es.len() - 1;
    if has_id(es.drop_last(), id) {
        lemma_first_with_id_exists(es.drop_last(), id);
        let i = target_index(es.drop_last(), id);
        assert forall|j: int| 0 <= j < i implies es[j].id != id by {
            assert(es.drop_last()[j] == es[j]);
        }
        assert(es.drop_last()[i] == es[i]);
        assert(is_first_with_id(es, id, i));
    } else {
        assert forall|j: int| 0 <= j < last implies es[j].id != id by {
            assert(es.drop_last()[j] == es[j]);
        }
        assert(is_first_with_id(es, id, last));
    }
}

/// Projectiles change nothing of the enemies but their health: the store
/// keeps its length, and each enemy its identifier, position and progress.
pub proof fn lemma_resolved_keeps_enemies(ps: Seq<Projectile>, es: Seq<Enemy>, dt: int)
    ensures
        resolved(ps, es, dt).1.len() == es.len(),
        forall|i: int|
            0 <= i < es.len() ==> (#[trigger] resolved(ps, es, dt).1[i]).id == es[i].id
                && resolved(ps, es, dt).1[i].pos == es[i].pos && resolved(ps, es, dt).1[i].follower
                == es[i].follower,
    decreases ps.len(),
{
    if ps.len() > 0 {
        lemma_resolved_keeps_enemies(ps.drop_last(), es, dt);
        let before = resolved(ps.drop_last(), es, dt).1;
        let p = ps.last();
        if has_id(before, p.target) {
            lemma_first_with_id_exists(before, p.target);
        }
    }
}

} // verus!
