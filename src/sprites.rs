use vstd::prelude::*;

verus! {

/// Columns of the sprite sheet.
pub const ATLAS_COLUMNS: usize = 10;

/// Rows of the sprite sheet.
pub const ATLAS_ROWS: usize = 3;

/// Sprite of an enemy.
pub const ENEMY_SPRITE: usize = 10;

/// Sprite of a projectile.
pub const PROJECTILE_SPRITE: usize = 17;

/// Index of the sprite at column `x`, row `y` of the sheet.
pub fn get_atlas_index(x: usize, y: usize) -> (r: usize)
    requires
        x < ATLAS_COLUMNS,
        y < ATLAS_ROWS,
    ensures
        r == y * ATLAS_COLUMNS + x,
{
    y * ATLAS_COLUMNS + x
}

/// A rotation of a sprite by quarter turns.
#[derive(Clone, Copy, Debug, PartialEq, Eq, Structural)]
pub enum Turn {
    Upright,
    /// A quarter turn clockwise.
    Clockwise,
    Half,
    /// A quarter turn counterclockwise.
    CounterClockwise,
}

/// A sprite drawn over a tile's base, and its rotation.
#[derive(Clone, Copy, Debug, PartialEq, Eq, Structural)]
pub struct Overlay {
    pub sprite: usize,
    pub turn: Turn,
}

/// How a tile is drawn: a base sprite, turned, and possibly a second sprite
/// drawn over it.
#[derive(Clone, Copy, Debug, PartialEq, Eq, Structural)]
pub struct TileSprite {
    pub base: usize,
    pub base_turn: Turn,
    pub overlay: Option<Overlay>,
}

pub open spec fn turn_of(k: int) -> Turn {
    if k == 0 {
        Turn::Upright
    } else if k == 1 {
        Turn::Clockwise
    } else if k == 2 {
        Turn::Half
    } else {
        Turn::CounterClockwise
    }
}

/// How the tile with identifier `id` is drawn.  Identifiers 8 to 19 are water
/// with a shore over it (sprite 5, 6 or 4 for each run of four, turned by
/// the identifier's place in its run); 20 and 21 are the start and end
/// markers over a road; 0 to 7 are plain tiles; every other identifier is
/// water.
pub open spec fn tile_sprite_of(id: u32) -> TileSprite {
    if 8 <= id <= 19 {
        let shore: usize = if id <= 11 {
            5
        } else if id <= 15 {
            6
        } else {
            4
        };
        TileSprite {
            base: 0,
            base_turn: Turn::Upright,
            overlay: Some(Overlay { sprite: shore, turn: turn_of((id - 8) % 4) }),
        }
    } else if id == 20 {
        TileSprite { base: 8, base_turn: Turn::Upright, overlay: Some(Overlay { sprite: 27, turn: Turn::Upright }) }
    } else if id == 21 {
        TileSprite { base: 8, base_turn: Turn::Upright, overlay: Some(Overlay { sprite: 28, turn: Turn::Upright }) }
    } else {
        let (base, turn) = if id == 0 {
            (9usize, Turn::Upright)
        } else if id == 2 {
            (8usize, Turn::Upright)
        } else if id == 3 {
            (8usize, Turn::Clockwise)
        } else if 4 <= id <= 7 {
            (7usize, turn_of(id - 4))
        } else {
            (0usize, Turn::Upright)
        };
        TileSprite { base, base_turn: turn, overlay: None }
    }
}

fn turn_for(k: u32) -> (r: Turn)
    requires
        k < 4,
    ensures
        r == turn_of(k as int),
{
    if k == 0 {
        Turn::Upright
    } else if k == 1 {
        Turn::Clockwise
    } else if k == 2 {
        Turn::Half
    } else {
        Turn::CounterClockwise
    }
}

/// How the tile with identifier `id` is drawn; see `tile_sprite_of`.
pub fn tile_sprite(id: u32) -> (r: TileSprite)
    ensures
        r == tile_sprite_of(id),
{
    if 8 <= id && id <= 19 {
        let shore: usize = if id <= 11 {
            get_atlas_index(5, 0)
        } else if id <= 15 {
            get_atlas_index(6, 0)
        } else {
            get_atlas_index(4, 0)
        };
        TileSprite {
            base: get_atlas_index(0, 0),
            base_turn: Turn::Upright,
            overlay: Some(Overlay { sprite: shore, turn: turn_for((id - 8) % 4) }),
        }
    } else if id == 20 {
        TileSprite {
            base: get_atlas_index(8, 0),
            base_turn: Turn::Upright,
            overlay: Some(Overlay { sprite: get_atlas_index(7, 2), turn: Turn::Upright }),
        }
    } else if id == 21 {
        TileSprite {
            base: get_atlas_index(8, 0),
            base_turn: Turn::Upright,
            overlay: Some(Overlay { sprite: get_atlas_index(8, 2), turn: Turn::Upright }),
        }
    } else {
        let (base, turn) = if id == 0 {
            (get_atlas_index(9, 0), Turn::Upright)
        } else if id == 2 {
            (get_atlas_index(8, 0), Turn::Upright)
        } else if id == 3 {
            (get_atlas_index(8, 0), Turn::Clockwise)
        } else if 4 <= id && id <= 7 {
            (get_atlas_index(7, 0), turn_for(id - 4))
        } else {
            (get_atlas_index(0, 0), Turn::Upright)
        };
        TileSprite { base, base_turn: turn, overlay: None }
    }
}

} // verus!
