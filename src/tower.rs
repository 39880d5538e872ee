use crate::enemy::{enemies_in_world, Enemy};
use crate::geometry::{distance_squared, sq_dist, lemma_sq_dist_bounds, Point, WORLD_LIMIT};
use vstd::prelude::*;

verus! {

/// The built-in tower archetypes.
#[derive(Clone, Copy, Debug, PartialEq, Eq, Structural)]
pub enum TowerType {
    Canon,
    Archer,
    Wizard,
}

/// Range in world units, damage per hit, and period between shots in
/// milliseconds, of an archetype.
pub open spec fn stats_of(t: TowerType) -> (u64, i32, u64) {
    match t {
        TowerType::Canon => (75_000, 15, 1200),
        TowerType::Archer => (120_000, 5, 350),
        TowerType::Wizard => (100_000, 30, 2000),
    }
}

impl TowerType {
    /// Range (world units), damage and period (milliseconds): the cannon
    /// reaches 75 pixels, hits for 15 every 1.2 s; the archer reaches 120
    /// pixels, hits for 5 every 0.35 s; the wizard reaches 100 pixels, hits
    /// for 30 every 2 s.
    pub fn get_stats(&self) -> (r: (u64, i32, u64))
        ensures
            r == stats_of(*self),
    {
        match self {
            TowerType::Canon => (75_000, 15, 1200),
            TowerType::Archer => (120_000, 5, 350),
            TowerType::Wizard => (100_000, 30, 2000),
        }
    }

    /// Index of the archetype's picture in the sprite sheet.
    pub fn get_sprite_index(&self) -> (r: usize)
        ensures
            r == match *self {
                TowerType::Canon => 14usize,
                TowerType::Archer => 15usize,
                TowerType::Wizard => 16usize,
            },
    {
        match self {
            TowerType::Canon => 14,
            TowerType::Archer => 15,
            TowerType::Wizard => 16,
        }
    }
}

/// A tower: where it stands, what it hits, and its cooldown, which counts the
/// milliseconds since its last shot up to its period.
#[derive(Clone, Copy, Debug, PartialEq, Eq, Structural)]
pub struct Tower {
    pub pos: Point,
    pub range: u64,
    pub damage: i32,
    pub period_ms: u64,
    pub elapsed_ms: u64,
}

/// A tower of the given archetype at `pos`, its cooldown just started.
pub open spec fn built_tower(kind: TowerType, pos: Point) -> Tower {
    Tower {
        pos,
        range: stats_of(kind).0,
        damage: stats_of(kind).1,
        period_ms: stats_of(kind).2,
        elapsed_ms: 0,
    }
}

impl Tower {
    /// A tower of the given archetype at `pos`, its cooldown just started.
    pub fn new(kind: TowerType, pos: Point) -> (r: Tower)
        ensures
            r == built_tower(kind, pos),
    {
        let (range, damage, period_ms) = kind.get_stats();
        Tower { pos, range, damage, period_ms, elapsed_ms: 0 }
    }
}

/// The tower's cooldown after `dt` more milliseconds; it stops counting at
/// the period, so an expired cooldown stays expired until a shot resets it.
pub open spec fn cooled(t: Tower, dt: int) -> Tower {
    Tower {
        elapsed_ms: if t.elapsed_ms + dt >= t.period_ms {
            t.period_ms
        } else {
            (t.elapsed_ms + dt) as u64
        },
        ..t
    }
}

pub open spec fn is_ready(t: Tower) -> bool {
    t.elapsed_ms >= t.period_ms
}

/// Advances a tower's cooldown by `dt` milliseconds; returns whether it may
/// shoot.
pub fn tick_cooldown(t: &mut Tower, dt: u64) -> (r: bool)
    ensures
        *final(t) == cooled(*old(t), dt as int),
        r == is_ready(*final(t)),
{
    if t.elapsed_ms as u128 + dt as u128 >= t.period_ms as u128 {
        t.elapsed_ms = t.period_ms;
    } else {
        t.elapsed_ms = t.elapsed_ms + dt;
    }
    t.elapsed_ms >= t.period_ms
}

/// `p` lies within `range` of `center`, the border included.
pub open spec fn in_range(center: Point, range: int, p: Point) -> bool {
    sq_dist(center, p) <= range * range
}

pub open spec fn none_in_range(center: Point, range: int, es: Seq<Enemy>) -> bool {
    forall|j: int| 0 <= j < es.len() ==> !in_range(center, range, #[trigger] es[j].pos)
}

/// Enemy `i` is the one a tower at `center` aims at: it is within range, no
/// enemy within range is nearer, and every enemy before it is farther.
pub open spec fn is_first_nearest(center: Point, range: int, es: Seq<Enemy>, i: int) -> bool {
    &&& 0 <= i < es.len()
    &&& in_range(center, range, es[i].pos)
    &&& forall|j: int|
        0 <= j < es.len() && in_range(center, range, #[trigger] es[j].pos) ==> sq_dist(
            center,
            es[i].pos,
        ) <= sq_dist(center, es[j].pos)
    &&& forall|j: int|
        0 <= j < i && in_range(center, range, #[trigger] es[j].pos) ==> sq_dist(center, es[i].pos)
            < sq_dist(center, es[j].pos)
}

/// The enemy that a tower at `center` aims at, if any.
pub open spec fn target_of(center: Point, range: int, es: Seq<Enemy>) -> Option<int> {
    if none_in_range(center, range, es) {
        None
    } else {
        Some(choose|i: int| is_first_nearest(center, range, es, i))
    }
}

/// Two enemies that both satisfy `is_first_nearest` are the same.
pub proof fn lemma_first_nearest_unique(
    center: Point,
    range: int,
    es: Seq<Enemy>,
    i: int,
    j: int,
)
    requires
        is_first_nearest(center, range, es, i),
        is_first_nearest(center, range, es, j),
    ensures
        i == j,
{
    assert(in_range(center, range, es[i].pos));
    assert(in_range(center, range, es[j].pos));
}

proof fn lemma_target_of_is(center: Point, range: int, es: Seq<Enemy>, i: int)
    requires
        is_first_nearest(center, range, es, i),
    ensures
        target_of(center, range, es) == Some(i),
{
    assert(in_range(center, range, es[i].pos));
    assert(!none_in_range(center, range, es));
    let k = choose|k: int| is_first_nearest(center, range, es, k);
    lemma_first_nearest_unique(center, range, es, i, k);
}

/// Picks the enemy a tower at `center` with the given range aims at: the
/// nearest one within range, the border included, and of several equally
/// near the first; `None` when no enemy is within range.
pub fn select_target(center: Point, range: u64, enemies: &Vec<Enemy>) -> (r: Option<usize>)
    requires
        center.in_world(),
        enemies_in_world(enemies@),
    ensures
        r matches Some(i) ==> is_first_nearest(center, range as int, enemies@, i as int),
        r is None <==> none_in_range(center, range as int, enemies@),
        r matches Some(i) ==> target_of(center, range as int, enemies@) == Some(i as int),
        r is None ==> target_of(center, range as int, enemies@) is None,
{
    let capped: u64 = if range >= 0x1_0000_0000 {
        0x1_0000_0000
    } else {
        range
    };
    assert(capped * capped <= 0x1_0000_0000 * 0x1_0000_0000) by (nonlinear_arith)
        requires
            capped <= 0x1_0000_0000,
    ;
    let limit: u128 = (capped as u128) * (capped as u128);
    if range >= 0x1_0000_0000 {
        assert(range * range >= 0x1_0000_0000 * 0x1_0000_0000) by (nonlinear_arith)
            requires
                range >= 0x1_0000_0000,
        ;
    }
    let mut best: Option<(usize, u64)> = None;
    let mut i: usize = 0;
    while i < enemies.len()
        invariant
            0 <= i <= enemies@.len(),
            center.in_world(),
            enemies_in_world(enemies@),
            limit <= range * range,
            limit < range * range ==> limit > 8 * WORLD_LIMIT * WORLD_LIMIT,
            best is None ==> forall|j: int|
                0 <= j < i ==> !in_range(center, range as int, #[trigger] enemies@[j].pos),
            best matches Some(b) ==> {
                &&& b.0 < i
                &&& b.1 == sq_dist(center, enemies@[b.0 as int].pos)
                &&& in_range(center, range as int, enemies@[b.0 as int].pos)
                &&& forall|j: int|
                    0 <= j < i && in_range(center, range as int, #[trigger] enemies@[j].pos)
                        ==> b.1 <= sq_dist(center, enemies@[j].pos)
                &&& forall|j: int|
                    0 <= j < b.0 && in_range(center, range as int, #[trigger] enemies@[j].pos)
                        ==> b.1 < sq_dist(center, enemies@[j].pos)
            },
        decreases enemies@.len() - i,
    {
        let p = enemies[i].pos;
        let d2 = distance_squared(center, p);
        proof {
            lemma_sq_dist_bounds(center, p);
        }
        if (d2 as u128) <= limit {
            match best {
                None => {
                    best = Some((i, d2));
                },
                Some(b) => {
                    if d2 < b.1 {
                        best = Some((i, d2));
                    }
                },
            }
        }
        i = i + 1;
    }
    match best {
        None => None,
        Some(b) => {
            proof {
                lemma_target_of_is(center, range as int, enemies@, b.0 as int);
            }
            Some(b.0)
        },
    }
}

/// An enemy exactly at a tower's range is within reach, and aimed at when it
/// is the only one; an enemy any farther is not.
pub proof fn lemma_range_is_inclusive(center: Point, range: int, e: Enemy)
    requires
        range >= 0,
    ensures
        sq_dist(center, e.pos) == range * range ==> is_first_nearest(center, range, seq![e], 0),
        sq_dist(center, e.pos) > range * range ==> none_in_range(center, range, seq![e]),
{
    if sq_dist(center, e.pos) == range * range {
        assert(forall|j: int| 0 <= j < 1 ==> seq![e][j] == e);
    }
    if sq_dist(center, e.pos) > range * range {
        assert(forall|j: int| 0 <= j < 1 ==> seq![e][j] == e);
    }
}

/// When two enemies are within range at the same distance and every other
/// enemy within range is farther, the tower aims at exactly one of them: the
/// one that comes first in the store.
pub proof fn lemma_tie_goes_to_first(center: Point, range: int, es: Seq<Enemy>, a: int, b: int)
    requires
        0 <= a < b < es.len(),
        in_range(center, range, es[a].pos),
        sq_dist(center, es[a].pos) == sq_dist(center, es[b].pos),
        forall|j: int|
            0 <= j < es.len() && j != a && j != b && in_range(center, range, #[trigger] es[j].pos)
                ==> sq_dist(center, es[a].pos) < sq_dist(center, es[j].pos),
    ensures
        target_of(center, range, es) == Some(a),
        !is_first_nearest(center, range, es, b),
{
    assert(is_first_nearest(center, range, es, a));
    lemma_target_of_is(center, range, es, a);
    assert(in_range(center, range, es[a].pos));
}

} // verus!
