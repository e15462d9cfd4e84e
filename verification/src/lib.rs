//! The movement and collision core of a tile-based platformer: rectangles, tile grids, a
//! broad-phase index, the resolution of moving bodies against the grids, and the rules by
//! which enemies, projectiles and weapons act.
//!
//! Everything here works on whole units. Velocities with fractions, the entity store and
//! the drawing belong to the program around this library, which hands in rounded
//! displacements and plain values, and carries out the commands it gets back.

pub mod actor;
pub mod bucket;
pub mod command;
pub mod enemy;
pub mod index;
pub mod input;
pub mod inventory;
pub mod projectile;
pub mod rect;
pub mod rng;
pub mod terrain;
pub mod tiles;
pub mod weapon;
