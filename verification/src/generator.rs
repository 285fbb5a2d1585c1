//! Block generators and verified chunk construction.
//!
//! A generator maps a global block position to a block kind, pure and
//! deterministic. The flat and skyblock generators are simple column rules;
//! noise-driven terrain computes its per-column surface height and cave
//! carving outside the verified core and hands the results to
//! [`normal_surface_block`], which makes the final decision. Chunk
//! construction fills the block channel from the chosen blocks and then
//! computes per-voxel exposure from chunk-local neighbors.

use vstd::prelude::*;

use crate::block::{spec_block_id, spec_definition, Block};
use crate::chunk::{
    in_chunk_bounds, spec_chunk_flat_index, spec_is_adjacent, Chunk, CHUNK_HEIGHT, CHUNK_VOLUME,
    CHUNK_WIDTH,
};
use crate::position::{BlockPosition, ChunkPosition, Conversion};

verus! {

broadcast use crate::subchunk::group_subchunk_view_lens;

/// Whether a block lets its neighbors' faces show: it is transparent or
/// not visible at all. A voxel face next to such a block must be rendered.
pub open spec fn spec_sees_through(b: Block) -> bool {
    spec_definition(b).transparent || !spec_definition(b).visible
}

/// The flat world column rule: bedrock floor, three layers of dirt, a
/// grass cap, and air above.
pub open spec fn spec_flat_block(pos: BlockPosition) -> Block {
    if pos.z == 0 {
        Block::Bedrock
    } else if pos.z < 4 {
        Block::Dirt
    } else if pos.z == 4 {
        Block::Grass
    } else {
        Block::Air
    }
}

/// The skyblock rule: the flat column rule restricted to three quadrants
/// of the origin chunk's footprint, air everywhere else.
pub open spec fn spec_skyblock_block(pos: BlockPosition) -> Block {
    if pos.x < 0 || pos.x >= CHUNK_WIDTH || pos.y < 0 || pos.y >= CHUNK_HEIGHT || (pos.x
        < CHUNK_WIDTH / 2 && pos.y >= CHUNK_HEIGHT / 2) {
        Block::Air
    } else if pos.z == 0 {
        Block::Bedrock
    } else if 1 <= pos.z <= 3 {
        Block::Dirt
    } else if pos.z == 4 {
        Block::Grass
    } else {
        Block::Air
    }
}

/// The height-based decision of the noise-driven terrain rule, after the
/// noise fields have been sampled: everything above the configured highest
/// surface or above this column's surface is air, the world floor is
/// bedrock, carved cave voxels are air, the surface itself is grass, a
/// band of the configured depth below it is dirt, and everything deeper is
/// stone.
pub open spec fn spec_normal_block(
    z: int,
    height: int,
    is_cave: bool,
    dirt_height: int,
    highest_surface_height: int,
) -> Block {
    if z > highest_surface_height {
        Block::Air
    } else if z == 0 {
        Block::Bedrock
    } else if is_cave {
        Block::Air
    } else if z > height {
        Block::Air
    } else if z == height {
        Block::Grass
    } else if z >= height - dirt_height {
        Block::Dirt
    } else {
        Block::Stone
    }
}

/// Generates flat worlds: every column follows the same layer rule.
pub struct FlatGenerator;

impl FlatGenerator {
    /// Returns the block of the flat world at a global position.
    pub fn choose_block(&self, pos: BlockPosition) -> (r: Block)
        ensures
            r == spec_flat_block(pos),
    {
        if pos.z == 0 {
            Block::Bedrock
        } else if pos.z < 4 {
            Block::Dirt
        } else if pos.z == 4 {
            Block::Grass
        } else {
            Block::Air
        }
    }
}

/// Generates skyblock worlds: a floating platform on part of the origin
/// chunk's footprint.
pub struct SkyblockGenerator;

impl SkyblockGenerator {
    /// Returns the block of the skyblock world at a global position.
    pub fn choose_block(&self, pos: BlockPosition) -> (r: Block)
        ensures
            r == spec_skyblock_block(pos),
    {
        if pos.x < 0 || pos.x >= CHUNK_WIDTH as i32 || pos.y < 0 || pos.y >= CHUNK_HEIGHT as i32
            || (pos.x < (CHUNK_WIDTH as i32) / 2 && pos.y >= (CHUNK_HEIGHT as i32) / 2) {
            Block::Air
        } else if pos.z == 0 {
            Block::Bedrock
        } else if 1 <= pos.z && pos.z <= 3 {
            Block::Dirt
        } else if pos.z == 4 {
            Block::Grass
        } else {
            Block::Air
        }
    }
}

/// The height-based decision of the noise-driven terrain rule; the surface
/// height and the cave flag come from the caller's noise sampling.
pub fn normal_surface_block(
    z: i32,
    height: i32,
    is_cave: bool,
    dirt_height: i32,
    highest_surface_height: u32,
) -> (r: Block)
    requires
        i32::MIN <= height - dirt_height <= i32::MAX,
    ensures
        r == spec_normal_block(
            z as int,
            height as int,
            is_cave,
            dirt_height as int,
            highest_surface_height as int,
        ),
{
    if (z as i64) > (highest_surface_height as i64) {
        return Block::Air;
    }
    if z == 0 {
        Block::Bedrock
    } else if is_cave {
        Block::Air
    } else if z > height {
        Block::Air
    } else if z == height {
        Block::Grass
    } else if z >= height - dirt_height {
        Block::Dirt
    } else {
        Block::Stone
    }
}

/// A closed choice of world generator, dispatched by pattern matching.
pub enum Generator {
    /// The flat world rule.
    Flat(FlatGenerator),
    /// The skyblock platform rule.
    Skyblock(SkyblockGenerator),
}

/// The block a generator chooses at a global position.
pub open spec fn spec_choose_block(g: &Generator, pos: BlockPosition) -> Block {
    match g {
        Generator::Flat(_) => spec_flat_block(pos),
        Generator::Skyblock(_) => spec_skyblock_block(pos),
    }
}

impl Generator {
    /// Returns the block this generator chooses at a global position.
    pub fn choose_block(&self, pos: BlockPosition) -> (r: Block)
        ensures
            r == spec_choose_block(self, pos),
    {
        match self {
            Generator::Flat(g) => g.choose_block(pos),
            Generator::Skyblock(g) => g.choose_block(pos),
        }
    }
}

/// Whether the block stored at a neighbor position lets the face toward it
/// show: the neighbor is inside the chunk and its block sees through.
pub open spec fn spec_neighbor_sees_through(blocks: Seq<Block>, n: BlockPosition) -> bool {
    in_chunk_bounds(n) && spec_sees_through(blocks[spec_chunk_flat_index(n)])
}

/// The chunk-local exposure rule over a flat sequence of chosen blocks: a
/// voxel is exposed when its block is visible and at least one in-chunk
/// axis neighbor sees through. Neighbors outside the chunk do not count.
pub open spec fn spec_blocks_exposed(blocks: Seq<Block>, q: BlockPosition) -> bool {
    &&& spec_definition(blocks[spec_chunk_flat_index(q)]).visible
    &&& exists|n: BlockPosition|
        #[trigger] spec_is_adjacent(n, q) && spec_neighbor_sees_through(blocks, n)
}

/// The flat iteration index of a local chunk position.
fn flat_index(pos: BlockPosition) -> (r: usize)
    requires
        in_chunk_bounds(pos),
    ensures
        r == spec_chunk_flat_index(pos),
        r < CHUNK_VOLUME,
{
    proof {
        assert(CHUNK_HEIGHT * crate::chunk::CHUNK_DEPTH == 1024 && CHUNK_VOLUME == 16384);
    }
    (pos.x as usize) * 1024 + (pos.y as usize) * 64 + (pos.z as usize)
}

/// Builds a chunk from a flat sequence of chosen blocks, one per local
/// position in iteration order, then computes every voxel's exposure from
/// its chunk-local neighbors. Block generation strictly precedes the
/// exposure pass, which reads all six neighbors including ones later in
/// iteration order.
pub fn chunk_from_blocks(pos: ChunkPosition, blocks: &Vec<Block>) -> (r: Chunk)
    requires
        blocks@.len() == CHUNK_VOLUME,
    ensures
        r.wf(),
        r.spec_pos() == pos,
        forall|q: BlockPosition|
            in_chunk_bounds(q) ==> #[trigger] r.spec_block_id_at(q) == spec_block_id(
                blocks@[spec_chunk_flat_index(q)],
            ),
        forall|q: BlockPosition|
            in_chunk_bounds(q) ==> #[trigger] r.spec_exposed_at(q) == spec_blocks_exposed(
                blocks@,
                q,
            ),
{
    let coords: Vec<BlockPosition> = Chunk::chunk_coords();
    let mut chunk: Chunk = Chunk::new(pos);

    let mut t: usize = 0;
    while t < CHUNK_VOLUME
        invariant
            t <= CHUNK_VOLUME,
            blocks@.len() == CHUNK_VOLUME,
            coords@.len() == CHUNK_VOLUME,
            forall|u: int| 0 <= u < CHUNK_VOLUME ==> in_chunk_bounds(#[trigger] coords@[u]),
            forall|u: int|
                0 <= u < CHUNK_VOLUME ==> spec_chunk_flat_index(#[trigger] coords@[u]) == u,
            forall|p: BlockPosition|
                in_chunk_bounds(p) ==> coords@[#[trigger] spec_chunk_flat_index(p)] == p,
            chunk.wf(),
            chunk.spec_pos() == pos,
            forall|q: BlockPosition|
                in_chunk_bounds(q) && spec_chunk_flat_index(q) < t
                    ==> #[trigger] chunk.spec_block_id_at(q) == spec_block_id(
                    blocks@[spec_chunk_flat_index(q)],
                ),
            forall|q: BlockPosition|
                in_chunk_bounds(q) && spec_chunk_flat_index(q) >= t
                    ==> #[trigger] chunk.spec_block_id_at(q) == 0,
            forall|q: BlockPosition|
                in_chunk_bounds(q) ==> !(#[trigger] chunk.spec_exposed_at(q)),
        decreases CHUNK_VOLUME - t,
    {
        let q: BlockPosition = coords[t];
        chunk.set_block(q, blocks[t]);
        t += 1;
    }

    let mut t: usize = 0;
    while t < CHUNK_VOLUME
        invariant
            t <= CHUNK_VOLUME,
            blocks@.len() == CHUNK_VOLUME,
            coords@.len() == CHUNK_VOLUME,
            forall|u: int| 0 <= u < CHUNK_VOLUME ==> in_chunk_bounds(#[trigger] coords@[u]),
            forall|u: int|
                0 <= u < CHUNK_VOLUME ==> spec_chunk_flat_index(#[trigger] coords@[u]) == u,
            forall|p: BlockPosition|
                in_chunk_bounds(p) ==> coords@[#[trigger] spec_chunk_flat_index(p)] == p,
            chunk.wf(),
            chunk.spec_pos() == pos,
            forall|q: BlockPosition|
                in_chunk_bounds(q) ==> #[trigger] chunk.spec_block_id_at(q) == spec_block_id(
                    blocks@[spec_chunk_flat_index(q)],
                ),
            forall|q: BlockPosition|
                in_chunk_bounds(q) && spec_chunk_flat_index(q) < t
                    ==> #[trigger] chunk.spec_exposed_at(q) == spec_blocks_exposed(blocks@, q),
            forall|q: BlockPosition|
                in_chunk_bounds(q) && spec_chunk_flat_index(q) >= t ==> !(
                #[trigger] chunk.spec_exposed_at(q)),
        decreases CHUNK_VOLUME - t,
    {
        let q: BlockPosition = coords[t];
        let b: Block = blocks[t];
        let visible: bool = b.definition().is_visible();

        let offsets: Vec<BlockPosition> = Chunk::block_offsets(q);
        let mut found: bool = false;
        let mut j: usize = 0;
        while j < offsets.len()
            invariant
                j <= offsets@.len(),
                blocks@.len() == CHUNK_VOLUME,
                forall|u: int|
                    0 <= u < offsets@.len() ==> spec_is_adjacent(#[trigger] offsets@[u], q) && 0
                        <= offsets@[u].z < crate::chunk::CHUNK_DEPTH,
                found == exists|u: int|
                    0 <= u < j && spec_neighbor_sees_through(blocks@, #[trigger] offsets@[u]),
            decreases offsets@.len() - j,
        {
            let n: BlockPosition = offsets[j];
            if n.x >= 0 && n.x < CHUNK_WIDTH as i32 && n.y >= 0 && n.y < CHUNK_HEIGHT as i32 {
                let nb: Block = blocks[flat_index(n)];
                let nd = nb.definition();
                if nd.is_transparent() || !nd.is_visible() {
                    found = true;
                    proof {
                        assert(spec_neighbor_sees_through(blocks@, offsets@[j as int]));
                    }
                }
            }
            j += 1;
        }

        let exposed: bool = visible && found;
        proof {
            assert(in_chunk_bounds(q) && spec_chunk_flat_index(q) == t);
            if exposed {
                let u = choose|u: int|
                    0 <= u < offsets@.len() && spec_neighbor_sees_through(blocks@, offsets@[u]);
                assert(spec_is_adjacent(offsets@[u], q) && spec_neighbor_sees_through(
                    blocks@,
                    offsets@[u],
                ));
                assert(spec_blocks_exposed(blocks@, q));
                crate::chunk::lemma_nonzero_block_implies_present(&chunk, q);
            }
            if !exposed && spec_blocks_exposed(blocks@, q) && visible {
                let n = choose|n: BlockPosition|
                    #[trigger] spec_is_adjacent(n, q) && spec_neighbor_sees_through(blocks@, n);
                assert(offsets@.contains(n));
                let w = choose|w: int| 0 <= w < offsets@.len() && offsets@[w] == n;
                assert(spec_neighbor_sees_through(blocks@, offsets@[w]));
                assert(false);
            }
        }
        chunk.set_block_exposed(q, exposed);
        t += 1;
    }
    chunk
}

/// The global position of a chunk-local voxel: the chunk's zero corner
/// plus the local offset.
pub open spec fn spec_global_pos(cp: ChunkPosition, q: BlockPosition) -> BlockPosition {
    BlockPosition {
        x: (cp.x * CHUNK_WIDTH + q.x) as i32,
        y: (cp.y * CHUNK_HEIGHT + q.y) as i32,
        z: q.z,
    }
}

/// The chunk-local exposure rule over a generator's output: a voxel is
/// exposed when its chosen block is visible and at least one in-chunk axis
/// neighbor's chosen block sees through.
pub open spec fn spec_generated_exposed(g: &Generator, cp: ChunkPosition, q: BlockPosition) -> bool {
    &&& spec_definition(spec_choose_block(g, spec_global_pos(cp, q))).visible
    &&& exists|n: BlockPosition|
        #[trigger] spec_is_adjacent(n, q) && in_chunk_bounds(n) && spec_sees_through(
            spec_choose_block(g, spec_global_pos(cp, n)),
        )
}

/// Builds the chunk at a position by asking the generator for every
/// voxel's block and then computing per-voxel exposure from chunk-local
/// neighbors.
pub fn generate_chunk(generator: &Generator, pos: ChunkPosition) -> (r: Chunk)
    requires
        i32::MIN <= pos.x as int * CHUNK_WIDTH as int,
        pos.x as int * CHUNK_WIDTH as int + CHUNK_WIDTH <= i32::MAX,
        i32::MIN <= pos.y as int * CHUNK_HEIGHT as int,
        pos.y as int * CHUNK_HEIGHT as int + CHUNK_HEIGHT <= i32::MAX,
    ensures
        r.wf(),
        r.spec_pos() == pos,
        forall|q: BlockPosition|
            in_chunk_bounds(q) ==> #[trigger] r.spec_block_id_at(q) == spec_block_id(
                spec_choose_block(generator, spec_global_pos(pos, q)),
            ),
        forall|q: BlockPosition|
            in_chunk_bounds(q) ==> #[trigger] r.spec_exposed_at(q) == spec_generated_exposed(
                generator,
                pos,
                q,
            ),
{
    let origin: BlockPosition = Conversion::chunk_to_block_pos(pos);
    let coords: Vec<BlockPosition> = Chunk::chunk_coords();

    let mut blocks: Vec<Block> = Vec::new();
    let mut t: usize = 0;
    while t < CHUNK_VOLUME
        invariant
            t <= CHUNK_VOLUME,
            coords@.len() == CHUNK_VOLUME,
            origin.x as int == pos.x as int * CHUNK_WIDTH as int,
            origin.y as int == pos.y as int * CHUNK_HEIGHT as int,
            pos.x as int * CHUNK_WIDTH as int + CHUNK_WIDTH <= i32::MAX,
            pos.y as int * CHUNK_HEIGHT as int + CHUNK_HEIGHT <= i32::MAX,
            forall|u: int| 0 <= u < CHUNK_VOLUME ==> in_chunk_bounds(#[trigger] coords@[u]),
            forall|u: int|
                0 <= u < CHUNK_VOLUME ==> spec_chunk_flat_index(#[trigger] coords@[u]) == u,
            blocks@.len() == t,
            forall|u: int|
                0 <= u < t ==> #[trigger] blocks@[u] == spec_choose_block(
                    generator,
                    spec_global_pos(pos, coords@[u]),
                ),
        decreases CHUNK_VOLUME - t,
    {
        let q: BlockPosition = coords[t];
        let global: BlockPosition = BlockPosition {
            x: origin.x + q.x,
            y: origin.y + q.y,
            z: q.z,
        };
        blocks.push(generator.choose_block(global));
        t += 1;
    }

    let r: Chunk = chunk_from_blocks(pos, &blocks);
    proof {
        assert forall|q: BlockPosition| in_chunk_bounds(q) implies #[trigger] blocks@[
        spec_chunk_flat_index(q)] == spec_choose_block(generator, spec_global_pos(pos, q)) by {
            crate::chunk::lemma_chunk_coords_cover(q);
            let u = spec_chunk_flat_index(q);
            assert(coords@[u] == q) by {
                assert(spec_chunk_flat_index(coords@[u]) == u);
                crate::chunk::lemma_chunk_flat_index_injective(coords@[u], q);
            }
        }
        assert forall|q: BlockPosition| in_chunk_bounds(q) implies #[trigger] r.spec_exposed_at(
            q,
        ) == spec_generated_exposed(generator, pos, q) by {
            if spec_blocks_exposed(blocks@, q) {
                let n = choose|n: BlockPosition|
                    #[trigger] spec_is_adjacent(n, q) && spec_neighbor_sees_through(blocks@, n);
                assert(spec_is_adjacent(n, q) && in_chunk_bounds(n) && spec_sees_through(
                    spec_choose_block(generator, spec_global_pos(pos, n)),
                ));
            }
            if spec_generated_exposed(generator, pos, q) {
                let n = choose|n: BlockPosition|
                    #[trigger] spec_is_adjacent(n, q) && in_chunk_bounds(n) && spec_sees_through(
                        spec_choose_block(generator, spec_global_pos(pos, n)),
                    );
                assert(spec_is_adjacent(n, q) && spec_neighbor_sees_through(blocks@, n));
            }
        }
    }
    r
}

} // verus!
