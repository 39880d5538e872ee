use crate::enemy::{enemies_in_world, Enemy};
use crate::geometry::Point;
use crate::projectile::{projectiles_in_world, Projectile, PROJECTILE_SPEED};
use crate::tower::{cooled, is_ready, select_target, target_of, tick_cooldown, Tower};
use vstd::prelude::*;

verus! {

pub open spec fn towers_in_world(s: Seq<Tower>) -> bool {
    forall|i: int| 0 <= i < s.len() ==> (#[trigger] s[i]).pos.in_world()
}

/// The projectile that tower `t` fires in a tick of `dt` milliseconds, if
/// any: when its cooldown has expired and an enemy is within range, one
/// projectile leaves the tower for that enemy with the tower's damage.
pub open spec fn shot_of(t: Tower, es: Seq<Enemy>, dt: int) -> Option<Projectile> {
    let c = cooled(t, dt);
    if !is_ready(c) {
        None
    } else {
        match target_of(c.pos, c.range as int, es) {
            None => None,
            Some(i) => Some(
                Projectile {
                    pos: c.pos,
                    target: es[i].id,
                    damage: c.damage,
                    speed: PROJECTILE_SPEED,
                    heading: Point { x: 0, y: 0 },
                },
            ),
        }
    }
}

/// The tower after a tick: its cooldown advanced, and reset to zero when it
/// fired.
pub open spec fn tower_after(t: Tower, es: Seq<Enemy>, dt: int) -> Tower {
    if shot_of(t, es, dt) is Some {
        Tower { elapsed_ms: 0, ..t }
    } else {
        cooled(t, dt)
    }
}

/// The projectiles fired by `ts`, in the towers' order.
pub open spec fn shots(ts: Seq<Tower>, es: Seq<Enemy>, dt: int) -> Seq<Projectile>
    decreases ts.len(),
{
    if ts.len() == 0 {
        seq![]
    } else {
        let before = shots(ts.drop_last(), es, dt);
        match shot_of(ts.last(), es, dt) {
            Some(p) => before.push(p),
            None => before,
        }
    }
}

/// Lets one tower act for a tick of `dt` milliseconds: advance its cooldown
/// and, when it has expired and an enemy is within range, fire at the
/// nearest one and reset the cooldown.
pub fn fire_tower(t: &mut Tower, enemies: &Vec<Enemy>, dt: u64) -> (r: Option<Projectile>)
    requires
        old(t).pos.in_world(),
        enemies_in_world(enemies@),
    ensures
        r == shot_of(*old(t), enemies@, dt as int),
        *final(t) == tower_after(*old(t), enemies@, dt as int),
{
    let ready = tick_cooldown(t, dt);
    if !ready {
        return None;
    }
    match select_target(t.pos, t.range, enemies) {
        None => None,
        Some(i) => {
            t.elapsed_ms = 0;
            Some(
                Projectile {
                    pos: t.pos,
                    target: enemies[i].id,
                    damage: t.damage,
                    speed: PROJECTILE_SPEED,
                    heading: Point { x: 0, y: 0 },
                },
            )
        },
    }
}

/// Lets every tower act for a tick; the projectiles fired are appended to
/// `projectiles`, in the towers' order.
pub fn fire_towers(
    towers: &mut Vec<Tower>,
    enemies: &Vec<Enemy>,
    projectiles: &mut Vec<Projectile>,
    dt: u64,
)
    requires
        towers_in_world(old(towers)@),
        enemies_in_world(enemies@),
        projectiles_in_world(old(projectiles)@),
    ensures
        final(towers)@.len() == old(towers)@.len(),
        forall|i: int|
            0 <= i < old(towers)@.len() ==> final(towers)@[i] == #[trigger] tower_after(
                old(towers)@[i],
                enemies@,
                dt as int,
            ),
        final(projectiles)@ == old(projectiles)@ + shots(old(towers)@, enemies@, dt as int),
        towers_in_world(final(towers)@),
        projectiles_in_world(final(projectiles)@),
{
    let ghost ts0 = towers@;
    let ghost ps0 = projectiles@;
    let n = towers.len();
    let mut i: usize = 0;
    while i < n
        invariant
            n == towers@.len(),
            n == ts0.len(),
            0 <= i <= n,
            towers_in_world(ts0),
            enemies_in_world(enemies@),
            forall|j: int| i <= j < n ==> towers@[j] == ts0[j],
            forall|j: int|
                0 <= j < i ==> towers@[j] == #[trigger] tower_after(ts0[j], enemies@, dt as int),
            towers_in_world(towers@),
            projectiles@ == ps0 + shots(ts0.take(i as int), enemies@, dt as int),
            projectiles_in_world(projectiles@),
        decreases n - i,
    {
        let mut t = towers[i];
        proof {
            assert(ts0.take(i as int + 1).drop_last() =~= ts0.take(i as int));
        }
        match fire_tower(&mut t, enemies, dt) {
            Some(p) => {
                projectiles.push(p);
            },
            None => {},
        }
        towers.set(i, t);
        i = i + 1;
    }
    assert(ts0.take(n as int) =~= ts0);
}

} // verus!
