use vstd::arithmetic::div_mod::{lemma_div_is_ordered, lemma_div_multiples_vanish};
use vstd::arithmetic::mul::lemma_mul_inequality;
use vstd::prelude::*;

verus! {

/// Largest absolute value of a world coordinate.
pub const WORLD_LIMIT: i64 = 1_000_000_000;

/// A point of the world, in world units.
#[derive(Clone, Copy, Debug, PartialEq, Eq, Structural)]
pub struct Point {
    pub x: i64,
    pub y: i64,
}

impl Point {
    pub open spec fn in_world(self) -> bool {
        -WORLD_LIMIT <= self.x <= WORLD_LIMIT && -WORLD_LIMIT <= self.y <= WORLD_LIMIT
    }

    pub fn in_world_check(&self) -> (r: bool)
        ensures
            r == self.in_world(),
    {
        -WORLD_LIMIT <= self.x && self.x <= WORLD_LIMIT && -WORLD_LIMIT <= self.y && self.y
            <= WORLD_LIMIT
    }

    pub fn new(x: i64, y: i64) -> (r: Point)
        ensures
            r.x == x,
            r.y == y,
    {
        Point { x, y }
    }
}

/// Squared Euclidean distance between two points.
pub open spec fn sq_dist(a: Point, b: Point) -> int {
    (b.x - a.x) * (b.x - a.x) + (b.y - a.y) * (b.y - a.y)
}

/// `r` is the integer square root of `n`, rounded down.
pub open spec fn is_floor_sqrt(n: int, r: int) -> bool {
    0 <= r && r * r <= n && n < (r + 1) * (r + 1)
}

pub open spec fn floor_sqrt(n: int) -> int {
    choose|r: int| is_floor_sqrt(n, r)
}

/// A distance of `step` covers the way from `pos` to `target`.
pub open spec fn reaches(pos: Point, target: Point, step: int) -> bool {
    sq_dist(pos, target) <= step * step
}

/// One coordinate of a move of length `step` along a vector whose coordinate
/// is `d` and whose length, rounded down, is `len`; rounded toward zero.
pub open spec fn component_move(d: int, step: int, len: int) -> int {
    if d >= 0 {
        (d * step) / len
    } else {
        -(((-d) * step) / len)
    }
}

/// Where a mover at `pos` heading for `target` stands after covering `step`:
/// exactly on the target when it is within reach, else `step` further along
/// the straight line toward it.
pub open spec fn stepped(pos: Point, target: Point, step: int) -> Point {
    if reaches(pos, target, step) {
        target
    } else {
        let len = floor_sqrt(sq_dist(pos, target));
        Point {
            x: (pos.x + component_move(target.x - pos.x, step, len)) as i64,
            y: (pos.y + component_move(target.y - pos.y, step, len)) as i64,
        }
    }
}

proof fn lemma_square_bound(d: int)
    requires
        -2 * WORLD_LIMIT <= d <= 2 * WORLD_LIMIT,
    ensures
        0 <= d * d <= 4 * WORLD_LIMIT * WORLD_LIMIT,
{
    assert(0 <= d * d <= 4 * WORLD_LIMIT * WORLD_LIMIT) by (nonlinear_arith)
        requires
            -2 * WORLD_LIMIT <= d <= 2 * WORLD_LIMIT,
    ;
}

pub proof fn lemma_sq_dist_bounds(a: Point, b: Point)
    requires
        a.in_world(),
        b.in_world(),
    ensures
        0 <= sq_dist(a, b) <= 8 * WORLD_LIMIT * WORLD_LIMIT,
{
    lemma_square_bound(b.x - a.x);
    lemma_square_bound(b.y - a.y);
}

proof fn lemma_floor_sqrt_unique(n: int, r: int, s: int)
    requires
        is_floor_sqrt(n, r),
        is_floor_sqrt(n, s),
    ensures
        r == s,
{
    if r < s {
        assert((r + 1) * (r + 1) <= s * s) by (nonlinear_arith)
            requires
                0 <= r,
                r + 1 <= s,
        ;
    } else if s < r {
        assert((s + 1) * (s + 1) <= r * r) by (nonlinear_arith)
            requires
                0 <= s,
                s + 1 <= r,
        ;
    }
}

/// Establishes `floor_sqrt(n) == r` from the defining inequalities.
pub proof fn lemma_floor_sqrt_is(n: int, r: int)
    requires
        is_floor_sqrt(n, r),
    ensures
        floor_sqrt(n) == r,
{
    let s = floor_sqrt(n);
    assert(is_floor_sqrt(n, s));
    lemma_floor_sqrt_unique(n, r, s);
}

/// Integer square root, rounded down.
pub fn isqrt(n: u64) -> (r: u64)
    ensures
        is_floor_sqrt(n as int, r as int),
        r == floor_sqrt(n as int),
        r <= 0x1_0000_0000,
{
    let mut lo: u64 = 0;
    let mut hi: u64 = 0x1_0000_0000;
    assert(n < 0x1_0000_0000 * 0x1_0000_0000);
    while hi - lo > 1
        invariant
            lo < hi <= 0x1_0000_0000,
            lo * lo <= n,
            n < hi * hi,
        decreases hi - lo,
    {
        let mid: u64 = lo + (hi - lo) / 2;
        assert(mid * mid <= 0x1_0000_0000 * 0x1_0000_0000) by (nonlinear_arith)
            requires
                mid <= 0x1_0000_0000,
        ;
        let sq: u128 = (mid as u128) * (mid as u128);
        if sq <= n as u128 {
            lo = mid;
        } else {
            hi = mid;
        }
    }
    proof {
        lemma_floor_sqrt_is(n as int, lo as int);
    }
    lo
}

/// Squared distance between two points of the world.
pub fn distance_squared(a: Point, b: Point) -> (r: u64)
    requires
        a.in_world(),
        b.in_world(),
    ensures
        r == sq_dist(a, b),
{
    proof {
        lemma_square_bound(b.x - a.x);
        lemma_square_bound(b.y - a.y);
    }
    let dx: i64 = b.x - a.x;
    let dy: i64 = b.y - a.y;
    let sx: i64 = dx * dx;
    let sy: i64 = dy * dy;
    (sx as u64) + (sy as u64)
}

proof fn lemma_component_move_bounds(d: int, step: int, len: int)
    requires
        0 <= step <= len,
        0 < len,
    ensures
        d >= 0 ==> 0 <= component_move(d, step, len) <= d,
        d < 0 ==> d <= component_move(d, step, len) <= 0,
{
    let a = if d >= 0 {
        d
    } else {
        -d
    };
    lemma_mul_inequality(step, len, a);
    assert(a * step <= len * a) by (nonlinear_arith)
        requires
            step * a <= len * a,
    ;
    assert(0 <= a * step) by (nonlinear_arith)
        requires
            0 <= a,
            0 <= step,
    ;
    lemma_div_is_ordered(a * step, len * a, len);
    lemma_div_multiples_vanish(a, len);
    lemma_div_is_ordered(0, a * step, len);
}

/// Distance covered at `speed` world units per millisecond in `dt`
/// milliseconds.
pub fn travel(speed: u64, dt: u64) -> (r: u128)
    ensures
        r == speed * dt,
{
    assert(speed * dt <= 0xffff_ffff_ffff_ffff * 0xffff_ffff_ffff_ffff) by (nonlinear_arith)
        requires
            speed <= 0xffff_ffff_ffff_ffff,
            dt <= 0xffff_ffff_ffff_ffff,
    ;
    (speed as u128) * (dt as u128)
}

/// Moves `pos` toward `target` by `step` world units.  Returns the new
/// position and whether the target was reached; a mover that reaches its
/// target stands exactly on it.
pub fn step_toward(pos: Point, target: Point, step: u128) -> (r: (Point, bool))
    requires
        pos.in_world(),
        target.in_world(),
    ensures
        r.1 == reaches(pos, target, step as int),
        r.0 == stepped(pos, target, step as int),
        r.0.in_world(),
        r.1 ==> r.0 == target,
{
    let d2 = distance_squared(pos, target);
    proof {
        lemma_sq_dist_bounds(pos, target);
    }
    if step >= 0x1_0000_0000 {
        assert(step * step >= 0x1_0000_0000 * 0x1_0000_0000) by (nonlinear_arith)
            requires
                step >= 0x1_0000_0000,
        ;
        return (target, true);
    }
    assert(step * step < 0x1_0000_0000 * 0x1_0000_0000) by (nonlinear_arith)
        requires
            0 <= step < 0x1_0000_0000,
    ;
    let sq_step: u128 = step * step;
    if (d2 as u128) <= sq_step {
        return (target, true);
    }
    let len = isqrt(d2);
    assert(step <= len) by (nonlinear_arith)
        requires
            d2 > step * step,
            d2 < (len + 1) * (len + 1),
            0 <= step,
            0 <= len,
    ;
    assert(len > 0) by (nonlinear_arith)
        requires
            d2 > step * step,
            d2 < (len + 1) * (len + 1),
            0 <= step,
            0 <= len,
    ;
    let dx: i64 = target.x - pos.x;
    let dy: i64 = target.y - pos.y;
    let mx = move_along(dx, step as u64, len);
    let my = move_along(dy, step as u64, len);
    (Point { x: pos.x + mx, y: pos.y + my }, false)
}

/// One coordinate of a move: `d * step / len`, rounded toward zero.
fn move_along(d: i64, step: u64, len: u64) -> (r: i64)
    requires
        -2 * WORLD_LIMIT <= d <= 2 * WORLD_LIMIT,
        step <= len,
        0 < len <= 0x1_0000_0000,
    ensures
        r == component_move(d as int, step as int, len as int),
        d >= 0 ==> 0 <= r <= d,
        d < 0 ==> d <= r <= 0,
{
    proof {
        lemma_component_move_bounds(d as int, step as int, len as int);
    }
    let a: u128 = if d >= 0 {
        d as u128
    } else {
        (-d) as u128
    };
    assert(a * step <= 2 * WORLD_LIMIT * 0x1_0000_0000) by (nonlinear_arith)
        requires
            a <= 2 * WORLD_LIMIT,
            step <= 0x1_0000_0000,
    ;
    let q: u128 = (a * (step as u128)) / (len as u128);
    if d >= 0 {
        q as i64
    } else {
        -(q as i64)
    }
}

} // verus!
