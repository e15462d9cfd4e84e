//! The state of the fire key, as the weapons see it.

use vstd::prelude::*;

verus! {

/// What the fire key did this tick.
#[derive(Copy, Clone, PartialEq, Eq, Debug, Structural)]
pub enum KeyState {
    /// The key is up.
    NotPressed,
    /// The key went down this tick.
    Pressed,
    /// The key has been down since an earlier tick.
    Held,
}

} // verus!
