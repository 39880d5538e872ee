use crate::enemy::{Enemy, Facing, Health, PathFollower, ENEMY_HEALTH, ENEMY_SPEED};
use crate::geometry::Point;
use vstd::prelude::*;

verus! {

/// Enemies spawned per tick when a stress run starts.
pub const STRESS_BASE_BATCH: u64 = 10;

/// A stress run spawns one more enemy per tick every this many milliseconds.
pub const STRESS_RAMP_MS: u64 = 10_000;

/// A repeating timer that spawns one enemy each time its period runs out.
#[derive(Clone, Copy, Debug, PartialEq, Eq, Structural)]
pub struct SpawnTimer {
    pub period_ms: u64,
    pub elapsed_ms: u64,
}

/// The timer after `dt` more milliseconds, and whether its period ran out.
/// Time past the end of the period counts toward the next one; a timer with
/// a period of zero runs out every tick.
pub open spec fn timer_after(t: SpawnTimer, dt: int) -> (SpawnTimer, bool) {
    let total = t.elapsed_ms + dt;
    if t.period_ms == 0 {
        (SpawnTimer { elapsed_ms: 0, ..t }, true)
    } else if total >= t.period_ms {
        (SpawnTimer { elapsed_ms: (total % (t.period_ms as int)) as u64, ..t }, true)
    } else {
        (SpawnTimer { elapsed_ms: total as u64, ..t }, false)
    }
}

impl SpawnTimer {
    pub fn new(period_ms: u64) -> (r: SpawnTimer)
        ensures
            r.period_ms == period_ms,
            r.elapsed_ms == 0,
    {
        SpawnTimer { period_ms, elapsed_ms: 0 }
    }

    /// Advances the timer by `dt` milliseconds; returns whether it ran out.
    pub fn tick(&mut self, dt: u64) -> (r: bool)
        ensures
            (*final(self), r) == timer_after(*old(self), dt as int),
    {
        if self.period_ms == 0 {
            self.elapsed_ms = 0;
            return true;
        }
        let total: u128 = self.elapsed_ms as u128 + dt as u128;
        if total >= self.period_ms as u128 {
            let rest: u128 = total % (self.period_ms as u128);
            self.elapsed_ms = rest as u64;
            true
        } else {
            self.elapsed_ms = total as u64;
            false
        }
    }
}

/// Spawning of a stress run: the batch spawned each tick starts at
/// `STRESS_BASE_BATCH` and grows by one every `STRESS_RAMP_MS`.
#[derive(Clone, Copy, Debug, PartialEq, Eq, Structural)]
pub struct StressSpawner {
    /// Milliseconds since the run started, before the current tick.
    pub elapsed_ms: u64,
}

pub open spec fn batch_for(elapsed_ms: int) -> int {
    STRESS_BASE_BATCH + elapsed_ms / (STRESS_RAMP_MS as int)
}

impl StressSpawner {
    pub fn new() -> (r: StressSpawner)
        ensures
            r.elapsed_ms == 0,
    {
        StressSpawner { elapsed_ms: 0 }
    }

    /// The batch for the current tick; then the clock moves on by `dt`.
    pub fn tick(&mut self, dt: u64) -> (r: u64)
        requires
            old(self).elapsed_ms + dt <= u64::MAX,
        ensures
            r == batch_for(old(self).elapsed_ms as int),
            final(self).elapsed_ms == old(self).elapsed_ms + dt,
    {
        let batch = STRESS_BASE_BATCH + self.elapsed_ms / STRESS_RAMP_MS;
        self.elapsed_ms = self.elapsed_ms + dt;
        batch
    }
}

/// A new enemy at `start`, heading for the second waypoint.
pub open spec fn fresh_enemy(id: u64, start: Point) -> Enemy {
    Enemy {
        id,
        pos: start,
        speed: ENEMY_SPEED,
        health: Health { current: ENEMY_HEALTH, max: ENEMY_HEALTH },
        follower: PathFollower { path_index: 1 },
        facing: Facing::Right,
    }
}

/// `count` new enemies at `start`, numbered from `first_id`.
pub open spec fn fresh_enemies(first_id: int, count: int, start: Point) -> Seq<Enemy> {
    Seq::new(count as nat, |k: int| fresh_enemy((first_id + k) as u64, start))
}

pub fn new_enemy(id: u64, start: Point) -> (r: Enemy)
    ensures
        r == fresh_enemy(id, start),
{
    Enemy {
        id,
        pos: start,
        speed: ENEMY_SPEED,
        health: Health { current: ENEMY_HEALTH, max: ENEMY_HEALTH },
        follower: PathFollower { path_index: 1 },
        facing: Facing::Right,
    }
}

/// Appends `count` new enemies at `start`, numbered from `first_id`.
pub fn spawn_enemies(enemies: &mut Vec<Enemy>, first_id: u64, count: u64, start: Point)
    requires
        first_id + count <= u64::MAX,
    ensures
        final(enemies)@ == old(enemies)@ + fresh_enemies(first_id as int, count as int, start),
{
    let ghost es0 = enemies@;
    let mut k: u64 = 0;
    while k < count
        invariant
            0 <= k <= count,
            first_id + count <= u64::MAX,
            enemies@ == es0 + fresh_enemies(first_id as int, k as int, start),
        decreases count - k,
    {
        enemies.push(new_enemy(first_id + k, start));
        proof {
            assert(fresh_enemies(first_id as int, k as int, start).push(
                fresh_enemy((first_id + k) as u64, start),
            ) =~= fresh_enemies(first_id as int, k + 1, start));
        }
        k = k + 1;
    }
}

} // verus!
