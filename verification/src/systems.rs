//! The part of a star-system config that the ship-log engine reads.

use vstd::prelude::*;

verus! {

/// A point of the ship-log map. Each coordinate is a 32-bit float, held here
/// by its bits: the engine hands coordinates on and never computes with them.
#[derive(Clone, Copy, Debug, PartialEq, Eq, Structural)]
pub struct MVector2 {
    pub x: u32,
    pub y: u32,
}

/// Where one entry stands on the ship-log map.
#[derive(Debug)]
pub struct EntryPos {
    pub id: String,
    pub position: MVector2,
}

/// A star-system config, as far as the ship-log engine reads it.
#[derive(Debug)]
pub struct StarSystem {
    pub entry_positions: Option<Vec<EntryPos>>,
}

} // verus!
