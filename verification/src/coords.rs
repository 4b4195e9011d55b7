//! Tile coordinates: a triple identifying a tile of the map at a zoom level.

use vstd::prelude::*;

verus! {

/// Identifies a tile by its column, row and zoom level. Cheap to copy,
/// compared field by field.
#[derive(Clone, Copy, PartialEq, Eq, Structural, Debug)]
pub struct TileCoords {
    pub x: u32,
    pub y: u32,
    pub z: u8,
}

impl TileCoords {
    pub fn new(x: u32, y: u32, z: u8) -> (c: TileCoords)
        ensures
            c == (TileCoords { x, y, z }),
    {
        TileCoords { x, y, z }
    }
}

} // verus!
