//! Tile-map scaffold: the grid of tile indices a scene can carry.
//!
//! Loading tile data from an asset file is an input concern and stays with
//! the host program; this type only holds the loaded grid.

use vstd::prelude::*;

verus! {

/// A rectangular grid of tile indices, row by row.
pub struct TileMap {
    pub width: u32,
    pub height: u32,
    pub tiles: Vec<u8>,
}

impl TileMap {
    /// A tile map over an already loaded grid of indices.
    pub fn new(width: u32, height: u32, tiles: Vec<u8>) -> (r: TileMap)
        ensures
            r.width == width,
            r.height == height,
            r.tiles@ == tiles@,
    {
        TileMap { width, height, tiles }
    }
}

} // verus!
