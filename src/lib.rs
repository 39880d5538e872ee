//! Simulation core of a tower-defense game.
//!
//! The world is modelled in integers: positions are fixed-point world
//! coordinates (1000 units per pixel), time is counted in milliseconds and
//! speeds in world units per millisecond.  Distances are compared squared, so
//! range checks and arrival checks are exact.
//!
//! - `geometry`: points, squared distances, integer square root, stepping
//!   toward a target.
//! - `grid`: tile categories, the square tile grid, cell centers and cells
//!   under a point.
//! - `path`: extraction of the enemies' path from the grid.
//! - `enemy`: enemies, their movement along the path, health bars.
//! - `tower`: archetypes, cooldowns, target selection.
//! - `projectile`: homing projectiles and their hits.
//! - `combat`: towers firing.
//! - `lifecycle`: removal of killed and escaped enemies, the player's stats.
//! - `spawn`: the steady spawn timer and the stress-run spawner.
//! - `simulation`: a whole session, tick by tick, and tower placement.
//! - `sprites`: which sprites draw a tile.
pub mod geometry;
pub mod grid;
pub mod path;
pub mod enemy;
pub mod tower;
pub mod projectile;
pub mod combat;
pub mod lifecycle;
pub mod spawn;
pub mod simulation;
pub mod sprites;
