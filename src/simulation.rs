use crate::combat::{fire_towers, shots, tower_after, towers_in_world};
use crate::enemy::{advanced, enemies_in_world, move_enemies, points_in_world, EndPolicy, Enemy};
use crate::geometry::Point;
use crate::grid::{
    cell_center, cell_point, lemma_cell_index, Cell, GridView, TileGrid, TileType, MAX_GRID_SIDE,
};
use crate::lifecycle::{
    cleanup, escape_count, ids_below, ids_increasing, kill_count, lemma_cleanup_conserves,
    lemma_survivors_keep_ids, survivors, PlayerStats, KILL_REWARD,
};
use crate::path::{neighbor, Path};
use crate::projectile::{
    lemma_resolved_keeps_enemies, move_projectiles, projectiles_in_world, resolved, Projectile,
};
use crate::spawn::{
    batch_for, fresh_enemies, spawn_enemies, timer_after, SpawnTimer, StressSpawner,
    STRESS_BASE_BATCH, STRESS_RAMP_MS,
};
use crate::tower::{built_tower, Tower, TowerType};
use vstd::prelude::*;

verus! {

/// How enemies enter the game.
#[derive(Clone, Copy, Debug, PartialEq, Eq, Structural)]
pub enum SpawnMode {
    /// One enemy each time the timer runs out; enemies that reach the end of
    /// the path escape and cost a life.
    Steady(SpawnTimer),
    /// A growing batch every tick; enemies that reach the end of the path
    /// start over.
    Stress(StressSpawner),
}

pub open spec fn policy_of(m: SpawnMode) -> EndPolicy {
    match m {
        SpawnMode::Steady(_) => EndPolicy::Escape,
        SpawnMode::Stress(_) => EndPolicy::Loop,
    }
}

/// Mathematical model of a simulation.
pub struct SimView {
    pub path: Seq<Point>,
    pub enemies: Seq<Enemy>,
    pub towers: Seq<Tower>,
    pub projectiles: Seq<Projectile>,
    pub stats: PlayerStats,
    pub mode: SpawnMode,
    pub spawned: u64,
    pub killed: u64,
    pub escaped: u64,
}

impl SimView {
    /// Every position lies in the world, and the census holds.
    pub open spec fn wf(self) -> bool {
        &&& points_in_world(self.path)
        &&& enemies_in_world(self.enemies)
        &&& towers_in_world(self.towers)
        &&& projectiles_in_world(self.projectiles)
        &&& self.census_ok()
    }

    /// Each enemy spawned so far is alive, killed or escaped, and only one of
    /// these; identifiers follow the order of spawning and are never reused.
    pub open spec fn census_ok(self) -> bool {
        &&& self.killed + self.escaped + self.enemies.len() == self.spawned
        &&& ids_increasing(self.enemies)
        &&& ids_below(self.enemies, self.spawned as int)
    }
}

/// The spawner after a tick of `dt` milliseconds, and how many enemies it
/// spawns; nothing is spawned while the path is empty.
pub open spec fn spawn_step(s: SimView, dt: int) -> (SpawnMode, int) {
    match s.mode {
        SpawnMode::Steady(t) => {
            let (t2, fired) = timer_after(t, dt);
            (SpawnMode::Steady(t2), if fired && s.path.len() > 0 {
                1
            } else {
                0
            })
        },
        SpawnMode::Stress(st) => (
            SpawnMode::Stress(StressSpawner { elapsed_ms: (st.elapsed_ms + dt) as u64 }),
            if s.path.len() > 0 {
                batch_for(st.elapsed_ms as int)
            } else {
                0
            },
        ),
    }
}

/// The enemies after spawning and moving.
pub open spec fn moved_enemies(s: SimView, dt: int) -> Seq<Enemy> {
    let count = spawn_step(s, dt).1;
    let spawned = s.enemies + fresh_enemies(s.spawned as int, count, s.path[0]);
    spawned.map_values(|e: Enemy| advanced(e, s.path, dt, policy_of(s.mode)))
}

/// The enemies once the projectiles have flown.
pub open spec fn hit_enemies(s: SimView, dt: int) -> Seq<Enemy> {
    resolved(s.projectiles, moved_enemies(s, dt), dt).1
}

/// One tick of `dt` milliseconds: spawn, move enemies, move projectiles and
/// apply their hits, let towers fire, then remove killed and escaped enemies.
pub open spec fn tick_model(s: SimView, dt: int) -> SimView {
    let (mode, count) = spawn_step(s, dt);
    let policy = policy_of(s.mode);
    let flown = resolved(s.projectiles, moved_enemies(s, dt), dt);
    let es = flown.1;
    let kills = kill_count(es);
    let escapes = escape_count(es, s.path.len() as int, policy);
    SimView {
        path: s.path,
        enemies: survivors(es, s.path.len() as int, policy),
        towers: s.towers.map_values(|t: Tower| tower_after(t, es, dt)),
        projectiles: flown.0 + shots(s.towers, es, dt),
        stats: PlayerStats {
            lives: (s.stats.lives - escapes) as i64,
            money: (s.stats.money + KILL_REWARD * kills) as i64,
        },
        mode,
        spawned: (s.spawned + count) as u64,
        killed: (s.killed + kills) as u64,
        escaped: (s.escaped + escapes) as u64,
    }
}

/// The counters of a tick stay within their machine types: the spawn
/// clock, the number spawned, and money and lives even if every enemy were
/// killed or escaped.
pub open spec fn tick_fits(s: SimView, dt: int) -> bool {
    let count = spawn_step(s, dt).1;
    let all = s.enemies.len() + count;
    &&& s.spawned + count <= u64::MAX
    &&& (s.mode matches SpawnMode::Stress(st) ==> st.elapsed_ms + dt <= u64::MAX)
    &&& s.stats.money + KILL_REWARD * all <= i64::MAX
    &&& s.stats.lives - all >= i64::MIN
}

/// A tick keeps the census: every enemy ever spawned is alive, killed or
/// escaped.
pub proof fn lemma_tick_keeps_census(s: SimView, dt: int)
    requires
        s.census_ok(),
        tick_fits(s, dt),
    ensures
        tick_model(s, dt).census_ok(),
        tick_model(s, dt).killed + tick_model(s, dt).escaped <= tick_model(s, dt).spawned,
{
    let count = spawn_step(s, dt).1;
    let policy = policy_of(s.mode);
    let fresh = fresh_enemies(s.spawned as int, count, s.path[0]);
    let spawned = s.enemies + fresh;
    let moved = moved_enemies(s, dt);
    let es = hit_enemies(s, dt);
    let t = tick_model(s, dt);
    assert(ids_increasing(spawned)) by {
        assert forall|i: int, j: int| 0 <= i < j < spawned.len() implies spawned[i].id
            < spawned[j].id by {
            if j < s.enemies.len() {
            } else if i < s.enemies.len() {
                assert(spawned[i].id < s.spawned);
            }
        }
    }
    assert(moved.len() == spawned.len());
    assert(forall|i: int| 0 <= i < moved.len() ==> moved[i].id == spawned[i].id);
    lemma_resolved_keeps_enemies(s.projectiles, moved, dt);
    assert(ids_increasing(es));
    assert(ids_below(es, t.spawned as int));
    lemma_survivors_keep_ids(es, s.path.len() as int, policy, t.spawned as int);
    lemma_cleanup_conserves(es, s.path.len() as int, policy);
}

/// The model after one tick for each duration of `dts`, in order.
pub open spec fn run_ticks(s: SimView, dts: Seq<u64>) -> SimView
    decreases dts.len(),
{
    if dts.len() == 0 {
        s
    } else {
        run_ticks(tick_model(s, dts[0] as int), dts.drop_first())
    }
}

/// Every tick of the run keeps the counters within their machine types.
pub open spec fn run_fits(s: SimView, dts: Seq<u64>) -> bool
    decreases dts.len(),
{
    dts.len() == 0 || (tick_fits(s, dts[0] as int) && run_fits(
        tick_model(s, dts[0] as int),
        dts.drop_first(),
    ))
}

/// Over a whole session, the enemies removed by death and by escape never
/// outnumber the enemies spawned: after any run of ticks from a state whose
/// census holds, killed plus escaped plus alive is the number spawned.
pub proof fn lemma_session_conserves_enemies(s: SimView, dts: Seq<u64>)
    requires
        s.census_ok(),
        run_fits(s, dts),
    ensures
        run_ticks(s, dts).census_ok(),
        run_ticks(s, dts).killed + run_ticks(s, dts).escaped <= run_ticks(s, dts).spawned,
    decreases dts.len(),
{
    if dts.len() > 0 {
        lemma_tick_keeps_census(s, dts[0] as int);
        lemma_session_conserves_enemies(tick_model(s, dts[0] as int), dts.drop_first());
    }
}

/// A running simulation: the path, the entities, the player's stats and the
/// spawner, with the counts of enemies spawned, killed and escaped.
pub struct Simulation {
    pub path: Path,
    pub enemies: Vec<Enemy>,
    pub towers: Vec<Tower>,
    pub projectiles: Vec<Projectile>,
    pub stats: PlayerStats,
    pub mode: SpawnMode,
    pub spawned: u64,
    pub killed: u64,
    pub escaped: u64,
}

impl View for Simulation {
    type V = SimView;

    open spec fn view(&self) -> SimView {
        SimView {
            path: self.path.points@,
            enemies: self.enemies@,
            towers: self.towers@,
            projectiles: self.projectiles@,
            stats: self.stats,
            mode: self.mode,
            spawned: self.spawned,
            killed: self.killed,
            escaped: self.escaped,
        }
    }
}

impl Simulation {
    /// A simulation on `path` with no entity yet; `None` when a point of the
    /// path lies outside the world.
    pub fn new(path: Path, stats: PlayerStats, mode: SpawnMode) -> (r: Option<Simulation>)
        ensures
            r is Some <==> points_in_world(path.points@),
            r matches Some(sim) ==> {
                &&& sim@.wf()
                &&& sim@.path == path.points@
                &&& sim@.enemies.len() == 0
                &&& sim@.towers.len() == 0
                &&& sim@.projectiles.len() == 0
                &&& sim@.stats == stats
                &&& sim@.mode == mode
                &&& sim.path.complete == path.complete
                &&& sim@.spawned == 0 && sim@.killed == 0 && sim@.escaped == 0
            },
    {
        let mut i: usize = 0;
        while i < path.points.len()
            invariant
                0 <= i <= path.points@.len(),
                forall|j: int| 0 <= j < i ==> (#[trigger] path.points@[j]).in_world(),
            decreases path.points@.len() - i,
        {
            if !path.points[i].in_world_check() {
                return None;
            }
            i = i + 1;
        }
        Some(
            Simulation {
                path,
                enemies: Vec::new(),
                towers: Vec::new(),
                projectiles: Vec::new(),
                stats,
                mode,
                spawned: 0,
                killed: 0,
                escaped: 0,
            },
        )
    }

    /// Whether `tick(dt)` keeps every counter within its machine type; see
    /// `tick_fits`.
    pub fn can_tick(&self, dt: u64) -> (r: bool)
        ensures
            r == tick_fits(self@, dt as int),
    {
        let count: u128 = match self.mode {
            SpawnMode::Steady(t) => {
                let mut t2 = t;
                if t2.tick(dt) && self.path.points.len() > 0 {
                    1
                } else {
                    0
                }
            },
            SpawnMode::Stress(st) => {
                if self.path.points.len() > 0 {
                    (STRESS_BASE_BATCH + st.elapsed_ms / STRESS_RAMP_MS) as u128
                } else {
                    0
                }
            },
        };
        let clock_ok = match self.mode {
            SpawnMode::Steady(_) => true,
            SpawnMode::Stress(st) => st.elapsed_ms as u128 + dt as u128 <= u64::MAX as u128,
        };
        assert(count <= u64::MAX);
        let all: i128 = self.enemies.len() as i128 + count as i128;
        assert(all <= 2 * u64::MAX);
        self.spawned as u128 + count <= u64::MAX as u128 && clock_ok && self.stats.money as i128
            + (KILL_REWARD as i128) * all <= i64::MAX as i128 && self.stats.lives as i128 - all
            >= i64::MIN as i128
    }

    /// Runs one tick of `dt` milliseconds: spawn, move enemies, move
    /// projectiles and apply their hits, let towers fire, and remove killed
    /// and escaped enemies, granting money and taking lives.
    pub fn tick(&mut self, dt: u64)
        requires
            old(self)@.wf(),
            tick_fits(old(self)@, dt as int),
        ensures
            final(self)@ == tick_model(old(self)@, dt as int),
            final(self)@.wf(),
            final(self).path == old(self).path,
    {
        let ghost s0 = self@;
        let policy = match self.mode {
            SpawnMode::Steady(_) => EndPolicy::Escape,
            SpawnMode::Stress(_) => EndPolicy::Loop,
        };
        let path_len = self.path.points.len();
        let count: u64 = match self.mode {
            SpawnMode::Steady(t) => {
                let mut t2 = t;
                let fired = t2.tick(dt);
                self.mode = SpawnMode::Steady(t2);
                if fired && path_len > 0 {
                    1
                } else {
                    0
                }
            },
            SpawnMode::Stress(st) => {
                let mut st2 = st;
                let batch = st2.tick(dt);
                self.mode = SpawnMode::Stress(st2);
                if path_len > 0 {
                    batch
                } else {
                    0
                }
            },
        };
        if count > 0 {
            let start = self.path.points[0];
            spawn_enemies(&mut self.enemies, self.spawned, count, start);
        } else {
            assert(s0.enemies + fresh_enemies(s0.spawned as int, 0, s0.path[0]) =~= s0.enemies);
        }
        self.spawned = self.spawned + count;
        proof {
            assert(enemies_in_world(self.enemies@));
        }
        move_enemies(&mut self.enemies, &self.path.points, dt, policy);
        assert(self.enemies@ =~= moved_enemies(s0, dt as int));
        move_projectiles(&mut self.projectiles, &mut self.enemies, dt);
        fire_towers(&mut self.towers, &self.enemies, &mut self.projectiles, dt);
        proof {
            lemma_resolved_keeps_enemies(s0.projectiles, moved_enemies(s0, dt as int), dt as int);
        }
        let (kills, escapes) = cleanup(&mut self.enemies, path_len, policy, &mut self.stats);
        self.killed = self.killed + kills;
        self.escaped = self.escaped + escapes;
        proof {
            lemma_tick_keeps_census(s0, dt as int);
            assert(self.towers@ =~= tick_model(s0, dt as int).towers);
        }
    }
}

/// Cell `c` is road, start or end.
pub open spec fn road_side(g: GridView, c: Cell) -> bool {
    let k = g.kind_at(c);
    k == TileType::Road || k == TileType::Start || k == TileType::End
}

/// Some neighbor of `c` (up, down, left or right) in the grid is road, start
/// or end.
pub open spec fn borders_road(g: GridView, c: Cell) -> bool {
    exists|dir: int|
        0 <= dir < 4 && g.in_bounds(#[trigger] neighbor(c, dir)) && road_side(
            g,
            neighbor(c, dir),
        )
}

/// The archetype a stress run puts on a grass cell: a cannon next to the
/// road, an archer elsewhere.
pub open spec fn stress_kind(g: GridView, c: Cell) -> TowerType {
    if borders_road(g, c) {
        TowerType::Canon
    } else {
        TowerType::Archer
    }
}

fn is_road_side(g: &TileGrid, x: usize, y: usize) -> (r: bool)
    requires
        g@.in_bounds((x as int, y as int)),
    ensures
        r == road_side(g@, (x as int, y as int)),
{
    let k = g.kind_at(x, y);
    k == TileType::Road || k == TileType::Start || k == TileType::End
}

/// The archetype a stress run puts on cell (`x`, `y`).
pub fn stress_tower_type(g: &TileGrid, x: usize, y: usize) -> (r: TowerType)
    requires
        g@.in_bounds((x as int, y as int)),
    ensures
        r == stress_kind(g@, (x as int, y as int)),
{
    let side = g.side();
    let ghost c: Cell = (x as int, y as int);
    let near = (y > 0 && is_road_side(g, x, y - 1)) || (y + 1 < side && is_road_side(g, x, y + 1))
        || (x > 0 && is_road_side(g, x - 1, y)) || (x + 1 < side && is_road_side(g, x + 1, y));
    proof {
        if near {
            if y > 0 && road_side(g@, neighbor(c, 0)) {
                assert(g@.in_bounds(neighbor(c, 0)));
            } else if y + 1 < side && road_side(g@, neighbor(c, 1)) {
                assert(g@.in_bounds(neighbor(c, 1)));
            } else if x > 0 && road_side(g@, neighbor(c, 2)) {
                assert(g@.in_bounds(neighbor(c, 2)));
            } else {
                assert(g@.in_bounds(neighbor(c, 3)));
            }
        } else {
            assert forall|dir: int|
                0 <= dir < 4 && g@.in_bounds(#[trigger] neighbor(c, dir)) implies !road_side(
                g@,
                neighbor(c, dir),
            ) by {}
        }
    }
    if near {
        TowerType::Canon
    } else {
        TowerType::Archer
    }
}

/// The towers a stress run builds on the first `n` cells of the grid, row by
/// row: one on each grass cell, of the archetype `stress_kind` gives.
pub open spec fn stress_towers(g: GridView, n: int) -> Seq<Tower>
    decreases n,
{
    if n <= 0 {
        seq![]
    } else {
        let before = stress_towers(g, n - 1);
        let c = g.cell_of(n - 1);
        if g.kind_at(c) == TileType::Grass {
            before.push(built_tower(stress_kind(g, c), cell_point(g.side as int, c)))
        } else {
            before
        }
    }
}

impl Simulation {
    /// Builds a tower of `kind` at the center of cell (`x`, `y`) of `grid`;
    /// only a grass cell takes one.  Returns whether the tower was built.
    pub fn place_tower(&mut self, grid: &TileGrid, x: usize, y: usize, kind: TowerType) -> (r:
        bool)
        requires
            old(self)@.wf(),
        ensures
            r == (grid@.in_bounds((x as int, y as int)) && grid@.kind_at((x as int, y as int))
                == TileType::Grass),
            r ==> final(self)@ == (SimView {
                towers: old(self)@.towers.push(
                    built_tower(kind, cell_point(grid@.side as int, (x as int, y as int))),
                ),
                ..old(self)@
            }),
            !r ==> final(self)@ == old(self)@,
            final(self)@.wf(),
            final(self).path == old(self).path,
    {
        let side = grid.side();
        if x >= side || y >= side {
            return false;
        }
        if grid.kind_at(x, y) != TileType::Grass {
            return false;
        }
        let pos = cell_center(side, x, y);
        self.towers.push(Tower::new(kind, pos));
        true
    }

    /// Builds the towers of a stress run: one on every grass cell of the
    /// grid, a cannon next to the road and an archer elsewhere.
    pub fn place_stress_towers(&mut self, grid: &TileGrid)
        requires
            old(self)@.wf(),
        ensures
            final(self)@ == (SimView {
                towers: old(self)@.towers + stress_towers(grid@, grid@.ids.len() as int),
                ..old(self)@
            }),
            final(self)@.wf(),
            final(self).path == old(self).path,
    {
        let ghost s0 = self@;
        let side = grid.side();
        assert(side * side <= MAX_GRID_SIDE * MAX_GRID_SIDE) by (nonlinear_arith)
            requires
                side <= MAX_GRID_SIDE,
        ;
        let n = side * side;
        let mut i: usize = 0;
        while i < n
            invariant
                grid@.wf(),
                side == grid@.side,
                n == grid@.ids.len(),
                0 <= i <= n,
                self@ == (SimView { towers: s0.towers + stress_towers(grid@, i as int), ..s0 }),
                self@.wf(),
                self.path == old(self).path,
            decreases n - i,
        {
            proof {
                lemma_cell_index(grid@, i as int);
            }
            let x = i % side;
            let y = i / side;
            if grid.kind_at(x, y) == TileType::Grass {
                let kind = stress_tower_type(grid, x, y);
                let pos = cell_center(side, x, y);
                self.towers.push(Tower::new(kind, pos));
                assert(self@.towers =~= s0.towers + stress_towers(grid@, i + 1));
            }
            i = i + 1;
        }
    }
}

} // verus!
