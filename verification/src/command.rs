//! Structural changes to the entity set are never made while the set is walked: they are
//! recorded as commands and applied by the caller once the pass is over.

use crate::rect::IntRect;
use vstd::prelude::*;

verus! {

/// One deferred change to the entity set.
#[derive(Clone, Copy, Debug, PartialEq, Eq, Structural)]
pub enum Command {
    /// Remove the entity with this identifier.
    Despawn(u64),
    /// Show an impact flash centred at `(x, y)`.
    Flash { x: i64, y: i64 },
    /// Show an explosion centred at `(x, y)`.
    Explosion { x: i64, y: i64 },
    /// Create a player projectile at `rect` that travels `vx` units per tick.
    Projectile { rect: IntRect, vx: i32 },
}

} // verus!
