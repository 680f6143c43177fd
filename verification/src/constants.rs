//! Configuration constants consumed by the spatial index and the
//! simulation core. These are plain compile-time constants, not
//! runtime-negotiated options.

use vstd::prelude::*;

verus! {

/// Maximum number of entities a node stores directly before it subdivides.
pub const NODE_CAPACITY: usize = 16;

/// Side length of the square simulation domain.
pub const ROOM_SIZE: u32 = 800;

/// Radius within which one agent can influence another.
pub const INFLUENCE_RADIUS: u32 = 25;

/// Ticks an agent stays infectious before falling sick.
pub const TIME_INFECTIOUS: u32 = 50;

/// Ticks an agent stays sick before each death roll.
pub const TIME_SICK: u32 = 20;

} // verus!
