//! Positions and the conversions between global, chunk and chunk-local
//! coordinate spaces.
//!
//! A block position addresses a single voxel; a chunk position addresses a
//! whole chunk by its two horizontal coordinates. Conversions use floor
//! division and Euclidean remainder so that negative coordinates map
//! correctly (global x = -1 lies in chunk x = -1 at local x = 15).

use vstd::arithmetic::div_mod::lemma_fundamental_div_mod;
use vstd::prelude::*;

use crate::chunk::{CHUNK_HEIGHT, CHUNK_WIDTH};

verus! {

/// The three-dimensional integer position of a block, either global or local
/// to a chunk.
#[derive(Clone, Copy, Debug, PartialEq, Eq, Structural)]
pub struct BlockPosition {
    pub x: i32,
    pub y: i32,
    pub z: i32,
}

/// The two-dimensional integer position of a chunk.
#[derive(Clone, Copy, Debug, PartialEq, Eq, Structural)]
pub struct ChunkPosition {
    pub x: i32,
    pub y: i32,
}

impl BlockPosition {
    /// Bundles three coordinates into a block position.
    pub fn new(x: i32, y: i32, z: i32) -> (r: Self)
        ensures
            r == (BlockPosition { x, y, z }),
    {
        BlockPosition { x, y, z }
    }
}

impl ChunkPosition {
    /// Bundles two coordinates into a chunk position.
    pub fn new(x: i32, y: i32) -> (r: Self)
        ensures
            r == (ChunkPosition { x, y }),
    {
        ChunkPosition { x, y }
    }
}

/// The chunk position a global block position falls into, as mathematical
/// integers. Division on `int` rounds toward negative infinity for a
/// positive divisor.
pub open spec fn chunk_of_block(pos: BlockPosition) -> (int, int) {
    (pos.x as int / CHUNK_WIDTH as int, pos.y as int / CHUNK_HEIGHT as int)
}

/// The coordinates of a global block position relative to the zero corner of
/// its own chunk, as mathematical integers.
pub open spec fn local_of_block(pos: BlockPosition) -> (int, int, int) {
    (pos.x as int % CHUNK_WIDTH as int, pos.y as int % CHUNK_HEIGHT as int, pos.z as int)
}

/// Conversions between the coordinate spaces, shared by every caller.
pub struct Conversion;

impl Conversion {
    /// Converts a given chunk position to its zero corner block position.
    pub fn chunk_to_block_pos(pos: ChunkPosition) -> (r: BlockPosition)
        requires
            i32::MIN <= pos.x as int * CHUNK_WIDTH as int <= i32::MAX,
            i32::MIN <= pos.y as int * CHUNK_HEIGHT as int <= i32::MAX,
        ensures
            r.x as int == pos.x as int * CHUNK_WIDTH as int,
            r.y as int == pos.y as int * CHUNK_HEIGHT as int,
            r.z == 0,
    {
        BlockPosition { x: pos.x * (CHUNK_WIDTH as i32), y: pos.y * (CHUNK_HEIGHT as i32), z: 0 }
    }

    /// Gets the chunk position a block position falls into, rounding toward
    /// negative infinity on both axes.
    pub fn block_to_chunk_pos(pos: BlockPosition) -> (r: ChunkPosition)
        ensures
            (r.x as int, r.y as int) == chunk_of_block(pos),
    {
        let x = pos.x.checked_div_euclid(CHUNK_WIDTH as i32).unwrap();
        let y = pos.y.checked_div_euclid(CHUNK_HEIGHT as i32).unwrap();
        ChunkPosition { x, y }
    }

    /// Finds the remainder of a global position using the chunk size: the
    /// position of the same block relative to its own chunk. The vertical
    /// coordinate is kept as it is.
    pub fn global_to_local_pos(pos: BlockPosition) -> (r: BlockPosition)
        ensures
            (r.x as int, r.y as int, r.z as int) == local_of_block(pos),
            0 <= r.x < CHUNK_WIDTH,
            0 <= r.y < CHUNK_HEIGHT,
    {
        let x = pos.x.checked_rem_euclid(CHUNK_WIDTH as i32).unwrap();
        let y = pos.y.checked_rem_euclid(CHUNK_HEIGHT as i32).unwrap();
        BlockPosition { x, y, z: pos.z }
    }
}

/// Converting a global position to its chunk position and to its chunk-local
/// position loses nothing: the zero corner of the chunk plus the local
/// offset is the original position again, on every axis.
pub proof fn lemma_position_round_trip(pos: BlockPosition)
    ensures
        chunk_of_block(pos).0 * CHUNK_WIDTH as int + local_of_block(pos).0 == pos.x as int,
        chunk_of_block(pos).1 * CHUNK_HEIGHT as int + local_of_block(pos).1 == pos.y as int,
        local_of_block(pos).2 == pos.z as int,
{
    lemma_fundamental_div_mod(pos.x as int, CHUNK_WIDTH as int);
    lemma_fundamental_div_mod(pos.y as int, CHUNK_HEIGHT as int);
}

} // verus!
