use crate::geometry::Point;
use vstd::arithmetic::div_mod::{lemma_fundamental_div_mod, lemma_fundamental_div_mod_converse};
use vstd::prelude::*;

verus! {

/// Width of one tile, in world units (32 pixels).
pub const TILE_SIZE: i64 = 32_000;

/// The map is drawn this far above the window's center, in world units, to
/// leave room for the tower bar below it.
pub const VERTICAL_SHIFT: i64 = 50_000;

/// Largest side of a grid.
pub const MAX_GRID_SIDE: usize = 1000;

/// Category of a tile.
#[derive(Clone, Copy, Debug, PartialEq, Eq, Structural)]
pub enum TileType {
    Water,
    Grass,
    Road,
    Start,
    End,
}

/// Category of a tile identifier of the level format.
pub open spec fn tile_kind(id: u32) -> TileType {
    if id == 0 {
        TileType::Grass
    } else if 2 <= id <= 7 {
        TileType::Road
    } else if id == 20 {
        TileType::Start
    } else if id == 21 {
        TileType::End
    } else {
        TileType::Water
    }
}

/// Classifies a tile identifier: 0 is grass, 2 to 7 are road, 20 is the
/// start, 21 the end, and every other identifier is water.
pub fn get_tile_type(tile_id: u32) -> (r: TileType)
    ensures
        r == tile_kind(tile_id),
{
    if tile_id == 0 {
        TileType::Grass
    } else if 2 <= tile_id && tile_id <= 7 {
        TileType::Road
    } else if tile_id == 20 {
        TileType::Start
    } else if tile_id == 21 {
        TileType::End
    } else {
        TileType::Water
    }
}

/// A tile as seen by whoever draws the map.
#[derive(Clone, Copy, Debug, PartialEq, Eq, Structural)]
pub struct GameTile {
    pub tile_type: TileType,
}

/// A grid cell, as (column, row); row 0 is the top row.
pub type Cell = (int, int);

/// Mathematical model of a grid: its side and its identifiers, row by row.
pub struct GridView {
    pub side: nat,
    pub ids: Seq<u32>,
}

impl GridView {
    pub open spec fn wf(self) -> bool {
        self.ids.len() == self.side * self.side && self.side <= MAX_GRID_SIDE
    }

    pub open spec fn in_bounds(self, c: Cell) -> bool {
        0 <= c.0 < self.side && 0 <= c.1 < self.side
    }

    pub open spec fn index_of(self, c: Cell) -> int {
        c.1 * self.side + c.0
    }

    pub open spec fn cell_of(self, i: int) -> Cell {
        (i % (self.side as int), i / (self.side as int))
    }

    pub open spec fn id_at(self, c: Cell) -> u32 {
        self.ids[self.index_of(c)]
    }

    pub open spec fn kind_at(self, c: Cell) -> TileType {
        tile_kind(self.id_at(c))
    }
}

/// Converts between a cell and its place in the row-by-row sequence.
pub proof fn lemma_cell_index(g: GridView, i: int)
    requires
        g.wf(),
        0 <= i < g.ids.len(),
    ensures
        g.in_bounds(g.cell_of(i)),
        g.index_of(g.cell_of(i)) == i,
{
    let s = g.side as int;
    assert(s > 0) by (nonlinear_arith)
        requires
            0 <= i < s * s,
            s >= 0,
    ;
    lemma_fundamental_div_mod(i, s);
    assert(i / s < s) by (nonlinear_arith)
        requires
            0 <= i < s * s,
            s > 0,
            i == s * (i / s) + i % s,
            0 <= i % s < s,
    ;
    assert(i / s >= 0) by (nonlinear_arith)
        requires
            0 <= i,
            s > 0,
            i == s * (i / s) + i % s,
            0 <= i % s < s,
    ;
}

pub proof fn lemma_index_bounds(g: GridView, c: Cell)
    requires
        g.wf(),
        g.in_bounds(c),
    ensures
        0 <= g.index_of(c) < g.ids.len(),
{
    let s = g.side as int;
    assert(0 <= c.1 * s + c.0 < s * s) by (nonlinear_arith)
        requires
            0 <= c.0 < s,
            0 <= c.1 < s,
    ;
}

pub proof fn lemma_index_cell(g: GridView, c: Cell)
    requires
        g.wf(),
        g.in_bounds(c),
    ensures
        g.cell_of(g.index_of(c)) == c,
        0 <= g.index_of(c) < g.ids.len(),
{
    lemma_index_bounds(g, c);
    lemma_fundamental_div_mod_converse(g.index_of(c), g.side as int, c.1, c.0);
}

/// World position of the center of a cell of a grid of the given side.  The
/// map is centered horizontally and shifted up by `VERTICAL_SHIFT`.
pub open spec fn cell_point(side: int, c: Cell) -> Point {
    Point {
        x: (c.0 * TILE_SIZE - side * TILE_SIZE / 2 + TILE_SIZE / 2) as i64,
        y: (side * TILE_SIZE / 2 - TILE_SIZE / 2 + VERTICAL_SHIFT - c.1 * TILE_SIZE) as i64,
    }
}

/// World position of the center of cell (`x`, `y`).
pub fn cell_center(side: usize, x: usize, y: usize) -> (r: Point)
    requires
        side <= MAX_GRID_SIDE,
        x < side,
        y < side,
    ensures
        r == cell_point(side as int, (x as int, y as int)),
        r.in_world(),
{
    let half: i64 = (side as i64) * TILE_SIZE / 2;
    Point {
        x: (x as i64) * TILE_SIZE - half + TILE_SIZE / 2,
        y: half - TILE_SIZE / 2 + VERTICAL_SHIFT - (y as i64) * TILE_SIZE,
    }
}

/// A square grid of tile identifiers, stored row by row.
pub struct TileGrid {
    side: usize,
    ids: Vec<u32>,
}

impl View for TileGrid {
    type V = GridView;

    closed spec fn view(&self) -> GridView {
        GridView { side: self.side as nat, ids: self.ids@ }
    }
}

impl TileGrid {
    #[verifier::type_invariant]
    spec fn inv(&self) -> bool {
        self.ids.len() == self.side * self.side && self.side <= MAX_GRID_SIDE
    }

    /// A grid of the given side from its identifiers, row by row; `None`
    /// unless there are exactly `side * side` of them and the side is at most
    /// `MAX_GRID_SIDE`.
    pub fn new(side: usize, ids: Vec<u32>) -> (r: Option<TileGrid>)
        ensures
            (ids@.len() == side * side && side <= MAX_GRID_SIDE) <==> r.is_some(),
            r matches Some(g) ==> g@ == (GridView { side: side as nat, ids: ids@ }),
    {
        if side > MAX_GRID_SIDE {
            return None;
        }
        assert(side * side <= MAX_GRID_SIDE * MAX_GRID_SIDE) by (nonlinear_arith)
            requires
                side <= MAX_GRID_SIDE,
        ;
        if ids.len() == side * side {
            Some(TileGrid { side, ids })
        } else {
            None
        }
    }

    pub fn side(&self) -> (r: usize)
        ensures
            r == self@.side,
            self@.wf(),
    {
        proof {
            use_type_invariant(self);
        }
        self.side
    }

    /// Identifier of cell (`x`, `y`).
    pub fn tile_id(&self, x: usize, y: usize) -> (r: u32)
        requires
            self@.in_bounds((x as int, y as int)),
        ensures
            r == self@.id_at((x as int, y as int)),
    {
        proof {
            use_type_invariant(self);
            lemma_index_bounds(self@, (x as int, y as int));
        }
        self.ids[y * self.side + x]
    }

    /// Category of cell (`x`, `y`).
    pub fn kind_at(&self, x: usize, y: usize) -> (r: TileType)
        requires
            self@.in_bounds((x as int, y as int)),
        ensures
            r == self@.kind_at((x as int, y as int)),
    {
        get_tile_type(self.tile_id(x, y))
    }
}

/// Left edge of the map, in world units.
pub open spec fn left_edge(side: int) -> int {
    -(side * TILE_SIZE / 2)
}

/// Top edge of the map, in world units.
pub open spec fn top_edge(side: int) -> int {
    side * TILE_SIZE / 2 + VERTICAL_SHIFT
}

/// The square of cell `c` holds `p`; a square holds its left and top
/// borders.
pub open spec fn cell_contains(side: int, c: Cell, p: Point) -> bool {
    &&& left_edge(side) + c.0 * TILE_SIZE <= p.x < left_edge(side) + (c.0 + 1) * TILE_SIZE
    &&& top_edge(side) - (c.1 + 1) * TILE_SIZE < p.y <= top_edge(side) - c.1 * TILE_SIZE
}

/// The cell of a grid of the given side under the world point `p`, if any.
pub fn cell_at(side: usize, p: Point) -> (r: Option<(usize, usize)>)
    requires
        side <= MAX_GRID_SIDE,
        p.in_world(),
    ensures
        r matches Some(c) ==> c.0 < side && c.1 < side && cell_contains(
            side as int,
            (c.0 as int, c.1 as int),
            p,
        ),
        r is None ==> forall|c: Cell|
            0 <= c.0 < side && 0 <= c.1 < side ==> !#[trigger] cell_contains(side as int, c, p),
{
    let span: i64 = (side as i64) * TILE_SIZE;
    let left: i64 = -((side as i64) * TILE_SIZE / 2);
    let top: i64 = (side as i64) * TILE_SIZE / 2 + VERTICAL_SHIFT;
    let ox: i64 = p.x - left;
    let oy: i64 = top - p.y;
    if ox < 0 || ox >= span || oy < 0 || oy >= span {
        return None;
    }
    let cx: i64 = ox / TILE_SIZE;
    let cy: i64 = oy / TILE_SIZE;
    proof {
        lemma_fundamental_div_mod(ox as int, TILE_SIZE as int);
        lemma_fundamental_div_mod(oy as int, TILE_SIZE as int);
    }
    assert(cx < side) by (nonlinear_arith)
        requires
            ox < span,
            span == side * TILE_SIZE,
            ox == TILE_SIZE * cx + ox % TILE_SIZE,
            0 <= ox % TILE_SIZE,
    ;
    assert(cy < side) by (nonlinear_arith)
        requires
            oy < span,
            span == side * TILE_SIZE,
            oy == TILE_SIZE * cy + oy % TILE_SIZE,
            0 <= oy % TILE_SIZE,
    ;
    Some((cx as usize, cy as usize))
}

} // verus!
