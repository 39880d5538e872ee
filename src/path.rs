use crate::geometry::Point;
use crate::grid::{
    cell_center, cell_point, lemma_cell_index, lemma_index_cell, tile_kind, Cell, GridView,
    TileGrid, TileType, MAX_GRID_SIDE, TILE_SIZE,
};
use vstd::prelude::*;

verus! {

/// Most steps that extraction takes from the start.
pub const MAX_PATH_STEPS: usize = 100;

/// The way enemies walk: world positions of cell centers, from the start.
pub struct Path {
    pub points: Vec<Point>,
    /// The last point is the end tile.  A path that stops short of it is a
    /// defect of the level.
    pub complete: bool,
}

/// Why no path could be extracted from a grid.
#[derive(Clone, Copy, Debug, PartialEq, Eq, Structural)]
pub enum PathError {
    NoStart,
    MultipleStarts,
}

pub open spec fn walkable(k: TileType) -> bool {
    k == TileType::Road || k == TileType::End
}

/// Neighbor of `c` in direction `dir`: up, down, left, right.
pub open spec fn neighbor(c: Cell, dir: int) -> Cell {
    if dir == 0 {
        (c.0, c.1 - 1)
    } else if dir == 1 {
        (c.0, c.1 + 1)
    } else if dir == 2 {
        (c.0 - 1, c.1)
    } else {
        (c.0 + 1, c.1)
    }
}

/// The walk may go on to `n` from a cell that it entered from `prev`.
pub open spec fn can_enter(g: GridView, prev: Cell, n: Cell) -> bool {
    g.in_bounds(n) && n != prev && walkable(g.kind_at(n))
}

/// The first neighbor of `c`, in the order up, down, left, right, that the
/// walk may enter.
pub open spec fn next_cell(g: GridView, c: Cell, prev: Cell) -> Option<Cell> {
    if can_enter(g, prev, neighbor(c, 0)) {
        Some(neighbor(c, 0))
    } else if can_enter(g, prev, neighbor(c, 1)) {
        Some(neighbor(c, 1))
    } else if can_enter(g, prev, neighbor(c, 2)) {
        Some(neighbor(c, 2))
    } else if can_enter(g, prev, neighbor(c, 3)) {
        Some(neighbor(c, 3))
    } else {
        None
    }
}

/// The cells that the walk visits after `c`, in at most `fuel` steps; it
/// stops on the end tile or where no neighbor can be entered.
pub open spec fn walk(g: GridView, c: Cell, prev: Cell, fuel: nat) -> Seq<Cell>
    decreases fuel,
{
    if fuel == 0 {
        seq![]
    } else {
        match next_cell(g, c, prev) {
            None => seq![],
            Some(n) => if g.kind_at(n) == TileType::End {
                seq![n]
            } else {
                seq![n] + walk(g, n, c, (fuel - 1) as nat)
            },
        }
    }
}

pub open spec fn is_start_at(g: GridView, i: int) -> bool {
    0 <= i < g.ids.len() && tile_kind(g.ids[i]) == TileType::Start
}

pub open spec fn has_no_start(g: GridView) -> bool {
    forall|i: int| !is_start_at(g, i)
}

pub open spec fn has_many_starts(g: GridView) -> bool {
    exists|i: int, j: int| is_start_at(g, i) && is_start_at(g, j) && i != j
}

/// The start cell of a grid that holds one.
pub open spec fn start_cell(g: GridView) -> Cell {
    g.cell_of(choose|i: int| is_start_at(g, i))
}

/// The cells of the extracted path: the start, then the walk from it.
pub open spec fn traced_cells(g: GridView) -> Seq<Cell> {
    seq![start_cell(g)] + walk(g, start_cell(g), start_cell(g), MAX_PATH_STEPS as nat)
}

pub open spec fn traced_points(g: GridView) -> Seq<Point> {
    traced_cells(g).map_values(|c: Cell| cell_point(g.side as int, c))
}

/// The extracted path ends on the end tile.
pub open spec fn traced_complete(g: GridView) -> bool {
    g.kind_at(traced_cells(g).last()) == TileType::End
}

/// Finds the start tile: `Ok(i)` with its place in the row-by-row sequence
/// when there is exactly one.
fn find_start(g: &TileGrid) -> (r: Result<usize, PathError>)
    ensures
        r matches Err(PathError::NoStart) <==> has_no_start(g@),
        r matches Err(PathError::MultipleStarts) <==> has_many_starts(g@),
        r matches Ok(i) ==> is_start_at(g@, i as int) && forall|j: int|
            is_start_at(g@, j) ==> j == i,
{
    let side = g.side();
    assert(side * side <= MAX_GRID_SIDE * MAX_GRID_SIDE) by (nonlinear_arith)
        requires
            side <= MAX_GRID_SIDE,
    ;
    let n = side * side;
    let mut found: Option<usize> = None;
    let mut i: usize = 0;
    while i < n
        invariant
            g@.wf(),
            n == g@.ids.len(),
            side == g@.side,
            0 <= i <= n,
            found matches Some(k) ==> k < i && is_start_at(g@, k as int),
            forall|j: int| 0 <= j < i && is_start_at(g@, j) ==> found == Some(j as usize),
        decreases n - i,
    {
        let x = i % side;
        let y = i / side;
        proof {
            lemma_cell_index(g@, i as int);
        }
        if g.kind_at(x, y) == TileType::Start {
            if let Some(k) = found {
                assert(is_start_at(g@, k as int) && is_start_at(g@, i as int));
                return Err(PathError::MultipleStarts);
            }
            found = Some(i);
        }
        i = i + 1;
    }
    match found {
        None => Err(PathError::NoStart),
        Some(k) => Ok(k),
    }
}


pub open spec fn cell(p: (usize, usize)) -> Cell {
    (p.0 as int, p.1 as int)
}

/// Whether the walk may enter (`x`, `y`) from a cell entered from `prev`.
fn enterable(g: &TileGrid, x: usize, y: usize, prev: (usize, usize)) -> (r: bool)
    requires
        g@.in_bounds((x as int, y as int)),
    ensures
        r == can_enter(g@, cell(prev), (x as int, y as int)),
{
    if x == prev.0 && y == prev.1 {
        return false;
    }
    let k = g.kind_at(x, y);
    k == TileType::Road || k == TileType::End
}

/// The next cell of the walk from (`x`, `y`), entered from `prev`.
fn next_step(g: &TileGrid, x: usize, y: usize, prev: (usize, usize)) -> (r: Option<(usize, usize)>)
    requires
        g@.in_bounds((x as int, y as int)),
    ensures
        r matches None ==> next_cell(g@, (x as int, y as int), cell(prev)) is None,
        r matches Some(n) ==> next_cell(g@, (x as int, y as int), cell(prev)) == Some(cell(n))
            && g@.in_bounds(cell(n)),
{
    let side = g.side();
    if y > 0 && enterable(g, x, y - 1, prev) {
        return Some((x, y - 1));
    }
    if y + 1 < side && enterable(g, x, y + 1, prev) {
        return Some((x, y + 1));
    }
    if x > 0 && enterable(g, x - 1, y, prev) {
        return Some((x - 1, y));
    }
    if x + 1 < side && enterable(g, x + 1, y, prev) {
        return Some((x + 1, y));
    }
    None
}

/// Extracts the enemies' path from a grid: from the start tile, step to the
/// first neighbor (up, down, left, right) that is road or end and is not the
/// cell just left, until the end tile is reached, no neighbor qualifies, or
/// `MAX_PATH_STEPS` steps were taken.  Fails when the grid has no start tile
/// or more than one.
pub fn extract(g: &TileGrid) -> (r: Result<Path, PathError>)
    ensures
        r matches Err(PathError::NoStart) <==> has_no_start(g@),
        r matches Err(PathError::MultipleStarts) <==> has_many_starts(g@),
        r matches Ok(p) ==> p.points@ == traced_points(g@) && p.complete == traced_complete(g@),
        r matches Ok(p) ==> p.points@.len() >= 1 && one_tile_steps(p.points@),
{
    let si = match find_start(g) {
        Ok(i) => i,
        Err(e) => {
            return Err(e);
        },
    };
    let side = g.side();
    proof {
        lemma_cell_index(g@, si as int);
        let j = choose|j: int| is_start_at(g@, j);
        assert(is_start_at(g@, si as int));
        assert(j == si);
    }
    let sx = si % side;
    let sy = si / side;
    let mut cur: (usize, usize) = (sx, sy);
    let mut prev: (usize, usize) = (sx, sy);
    let mut points: Vec<Point> = Vec::new();
    points.push(cell_center(side, sx, sy));
    let ghost mut cells: Seq<Cell> = seq![cell(cur)];
    let mut k: usize = 0;
    let mut done = false;
    while k < MAX_PATH_STEPS && !done
        invariant
            g@.wf(),
            side == g@.side,
            g@.in_bounds(cell(cur)),
            k <= MAX_PATH_STEPS,
            cells.len() >= 1,
            cells.last() == cell(cur),
            points@.len() == cells.len(),
            forall|i: int| 0 <= i < cells.len() ==> points@[i] == cell_point(side as int, cells[i]),
            !done ==> cells + walk(g@, cell(cur), cell(prev), (MAX_PATH_STEPS - k) as nat)
                == traced_cells(g@),
            done ==> cells == traced_cells(g@),
        decreases MAX_PATH_STEPS - k,
    {
        let ghost fuel = (MAX_PATH_STEPS - k) as nat;
        match next_step(g, cur.0, cur.1, prev) {
            None => {
                assert(walk(g@, cell(cur), cell(prev), fuel) =~= seq![]);
                assert(cells + seq![] =~= cells);
                done = true;
            },
            Some(n) => {
                points.push(cell_center(side, n.0, n.1));
                let ghost old_cells = cells;
                let ghost old_cur = cur;
                let ghost old_prev = prev;
                proof {
                    cells = cells.push(cell(n));
                }
                prev = cur;
                cur = n;
                if g.kind_at(n.0, n.1) == TileType::End {
                    assert(walk(g@, cell(old_cur), cell(old_prev), fuel) == seq![cell(n)]);
                    assert(old_cells + seq![cell(n)] =~= cells);
                    done = true;
                } else {
                    assert(old_cells + walk(g@, cell(old_cur), cell(old_prev), fuel) =~= cells + walk(
                        g@,
                        cell(cur),
                        cell(prev),
                        (fuel - 1) as nat,
                    ));
                }
            },
        }
        k = k + 1;
    }
    if !done {
        assert(walk(g@, cell(cur), cell(prev), 0) =~= seq![]);
        assert(cells + seq![] =~= cells);
    }
    let complete = g.kind_at(cur.0, cur.1) == TileType::End;
    assert(points@ =~= traced_points(g@));
    proof {
        assert(is_start_at(g@, si as int));
        lemma_traced_path_shape(g@);
    }
    Ok(Path { points, complete })
}


pub open spec fn adjacent(a: Cell, b: Cell) -> bool {
    b == neighbor(a, 0) || b == neighbor(a, 1) || b == neighbor(a, 2) || b == neighbor(a, 3)
}

/// The cell that a walk along `chain` left to enter `chain[i]`; the start
/// counts as its own predecessor.
pub open spec fn chain_prev(chain: Seq<Cell>, i: int) -> Cell {
    if i == 0 {
        chain[0]
    } else {
        chain[i - 1]
    }
}

/// `chain` is a road from a start tile to an end tile, one adjacent cell at a
/// time, that never turns back and never branches: from each of its cells the
/// only neighbor that a walk may enter is the next cell of the chain.
#[verifier::opaque]
pub open spec fn is_unbranched_road(g: GridView, chain: Seq<Cell>) -> bool {
    &&& 2 <= chain.len() <= MAX_PATH_STEPS + 1
    &&& forall|i: int| 0 <= i < chain.len() ==> g.in_bounds(#[trigger] chain[i])
    &&& g.kind_at(chain[0]) == TileType::Start
    &&& forall|i: int| 0 < i < chain.len() - 1 ==> g.kind_at(#[trigger] chain[i]) == TileType::Road
    &&& g.kind_at(chain.last()) == TileType::End
    &&& forall|i: int|
        0 <= i < chain.len() - 1 ==> adjacent(#[trigger] chain[i], chain[i + 1]) && chain[i + 1]
            != chain_prev(chain, i)
    &&& forall|i: int, n: Cell|
        0 <= i < chain.len() - 1 && adjacent(#[trigger] chain[i], n) && #[trigger] can_enter(
            g,
            chain_prev(chain, i),
            n,
        ) ==> n == chain[i + 1]
}

proof fn lemma_next_on_road(g: GridView, chain: Seq<Cell>, i: int)
    requires
        g.wf(),
        is_unbranched_road(g, chain),
        0 <= i < chain.len() - 1,
    ensures
        next_cell(g, chain[i], chain_prev(chain, i)) == Some(chain[i + 1]),
        i + 1 < chain.len() - 1 ==> g.kind_at(chain[i + 1]) == TileType::Road,
        i + 1 == chain.len() - 1 ==> g.kind_at(chain[i + 1]) == TileType::End,
        chain.len() <= MAX_PATH_STEPS + 1,
{
    reveal(is_unbranched_road);
    let c = chain[i];
    let prev = chain_prev(chain, i);
    let n = chain[i + 1];
    assert(g.in_bounds(n));
    assert(adjacent(c, n));
    if i + 1 < chain.len() - 1 {
        assert(g.kind_at(n) == TileType::Road);
    }
    assert(can_enter(g, prev, n));
    assert forall|d: int| 0 <= d < 4 && can_enter(g, prev, neighbor(c, d)) implies neighbor(c, d)
        == n by {
        assert(adjacent(c, neighbor(c, d)));
    }
    assert(can_enter(g, prev, neighbor(c, 0)) ==> neighbor(c, 0) == n);
    assert(can_enter(g, prev, neighbor(c, 1)) ==> neighbor(c, 1) == n);
    assert(can_enter(g, prev, neighbor(c, 2)) ==> neighbor(c, 2) == n);
    assert(can_enter(g, prev, neighbor(c, 3)) ==> neighbor(c, 3) == n);
}

proof fn lemma_walk_follows_road(g: GridView, chain: Seq<Cell>, i: int, fuel: nat)
    requires
        g.wf(),
        is_unbranched_road(g, chain),
        0 <= i < chain.len() - 1,
        fuel >= chain.len() - 1 - i,
    ensures
        walk(g, chain[i], chain_prev(chain, i), fuel) == chain.subrange(i + 1, chain.len() as int),
    decreases chain.len() - i,
{
    let c = chain[i];
    let n = chain[i + 1];
    lemma_next_on_road(g, chain, i);
    if i + 1 == chain.len() - 1 {
        assert(chain.subrange(i + 1, chain.len() as int) =~= seq![n]);
    } else {
        lemma_walk_follows_road(g, chain, i + 1, (fuel - 1) as nat);
        assert(chain_prev(chain, i + 1) == c);
        assert(chain.subrange(i + 1, chain.len() as int) =~= seq![n] + chain.subrange(
            i + 2,
            chain.len() as int,
        ));
    }
}

/// On a grid with a single start tile that begins an unbranched road to an
/// end tile, extraction succeeds and yields that road: the path ends on the
/// end tile's center and holds one point per cell of the road, that is the
/// road's length in steps plus one.
pub proof fn lemma_extract_follows_road(g: GridView, chain: Seq<Cell>)
    requires
        g.wf(),
        is_unbranched_road(g, chain),
        forall|i: int, j: int| is_start_at(g, i) && is_start_at(g, j) ==> i == j,
    ensures
        !has_no_start(g),
        !has_many_starts(g),
        traced_cells(g) == chain,
        traced_complete(g),
        traced_points(g).len() == chain.len(),
        traced_points(g).last() == cell_point(g.side as int, chain.last()),
{
    reveal(is_unbranched_road);
    let s = chain[0];
    assert(g.in_bounds(s));
    lemma_index_cell(g, s);
    assert(is_start_at(g, g.index_of(s)));
    let j = choose|j: int| is_start_at(g, j);
    assert(j == g.index_of(s));
    assert(start_cell(g) == s);
    lemma_walk_follows_road(g, chain, 0, MAX_PATH_STEPS as nat);
    assert(traced_cells(g) =~= chain);
}

/// Consecutive cells of `s` are neighbors inside the grid, and no cell is
/// the one visited two steps before.
pub open spec fn is_walk_shape(g: GridView, s: Seq<Cell>) -> bool {
    &&& forall|i: int| 0 <= i < s.len() ==> g.in_bounds(#[trigger] s[i])
    &&& forall|i: int| 0 <= i < s.len() - 1 ==> adjacent(#[trigger] s[i], s[i + 1])
    &&& forall|i: int| 0 <= i < s.len() - 2 ==> #[trigger] s[i] != s[i + 2]
}

/// Consecutive points of `ps` lie one tile apart, along one axis.
pub open spec fn one_tile_steps(ps: Seq<Point>) -> bool {
    forall|i: int|
        0 <= i < ps.len() - 1 ==> {
            let a = #[trigger] ps[i];
            let b = ps[i + 1];
            (a.x == b.x && (b.y - a.y == TILE_SIZE || a.y - b.y == TILE_SIZE)) || (a.y == b.y && (
            b.x - a.x == TILE_SIZE || a.x - b.x == TILE_SIZE))
        }
}

proof fn lemma_walk_shape(g: GridView, c: Cell, prev: Cell, fuel: nat)
    requires
        g.in_bounds(c),
    ensures
        is_walk_shape(g, seq![c] + walk(g, c, prev, fuel)),
        walk(g, c, prev, fuel).len() > 0 ==> walk(g, c, prev, fuel)[0] != prev,
    decreases fuel,
{
    let w = walk(g, c, prev, fuel);
    let s = seq![c] + w;
    if fuel > 0 {
        if let Some(n) = next_cell(g, c, prev) {
            assert(adjacent(c, n));
            assert(can_enter(g, prev, n));
            if g.kind_at(n) != TileType::End {
                let rest = walk(g, n, c, (fuel - 1) as nat);
                lemma_walk_shape(g, n, c, (fuel - 1) as nat);
                let t = seq![n] + rest;
                assert(s =~= seq![c] + t);
                assert forall|i: int| 0 <= i < s.len() - 1 implies adjacent(
                    #[trigger] s[i],
                    s[i + 1],
                ) by {
                    if i > 0 {
                        assert(s[i] == t[i - 1] && s[i + 1] == t[i]);
                    }
                }
                assert forall|i: int| 0 <= i < s.len() - 2 implies #[trigger] s[i] != s[i + 2] by {
                    if i > 0 {
                        assert(s[i] == t[i - 1] && s[i + 2] == t[i + 1]);
                    } else {
                        assert(s[2] == rest[0]);
                    }
                }
                assert forall|i: int| 0 <= i < s.len() implies g.in_bounds(#[trigger] s[i]) by {
                    if i > 0 {
                        assert(s[i] == t[i - 1]);
                    }
                }
            } else {
                assert(s =~= seq![c, n]);
            }
        } else {
            assert(s =~= seq![c]);
        }
    } else {
        assert(s =~= seq![c]);
    }
}

proof fn lemma_adjacent_points(side: int, a: Cell, b: Cell)
    requires
        0 <= side <= MAX_GRID_SIDE,
        0 <= a.0 < side && 0 <= a.1 < side,
        0 <= b.0 < side && 0 <= b.1 < side,
        adjacent(a, b),
    ensures
        ({
            let p = cell_point(side, a);
            let q = cell_point(side, b);
            (p.x == q.x && (q.y - p.y == TILE_SIZE || p.y - q.y == TILE_SIZE)) || (p.y == q.y && (
            q.x - p.x == TILE_SIZE || p.x - q.x == TILE_SIZE))
        }),
{
}

/// The extracted path's cells follow the grid one neighbor at a time without
/// turning back, so its points are one tile apart along one axis.
pub proof fn lemma_traced_path_shape(g: GridView)
    requires
        g.wf(),
        !has_no_start(g),
    ensures
        is_walk_shape(g, traced_cells(g)),
        one_tile_steps(traced_points(g)),
{
    let i = choose|i: int| is_start_at(g, i);
    lemma_cell_index(g, i);
    let s = start_cell(g);
    lemma_walk_shape(g, s, s, MAX_PATH_STEPS as nat);
    let cells = traced_cells(g);
    let ps = traced_points(g);
    assert forall|k: int| 0 <= k < ps.len() - 1 implies {
        let a = #[trigger] ps[k];
        let b = ps[k + 1];
        (a.x == b.x && (b.y - a.y == TILE_SIZE || a.y - b.y == TILE_SIZE)) || (a.y == b.y && (b.x
            - a.x == TILE_SIZE || a.x - b.x == TILE_SIZE))
    } by {
        assert(g.in_bounds(cells[k]) && g.in_bounds(cells[k + 1]));
        assert(adjacent(cells[k], cells[k + 1]));
        lemma_adjacent_points(g.side as int, cells[k], cells[k + 1]);
    }
}

} // verus!
