//! The world: a mapping from two-dimensional chunk positions to chunks,
//! plus the set of dirty chunk positions awaiting a downstream rebuild.
//!
//! An absent chunk is a normal, expected condition meaning "not yet
//! generated": reads surface it as `None`, never as a default block.

use std::collections::HashMap;

use vstd::arithmetic::div_mod::lemma_fundamental_div_mod_converse;
use vstd::prelude::*;
use vstd::seq_lib::lemma_seq_contains_after_push;

use crate::block::{spec_block_of_id, Block};
use crate::chunk::{in_chunk_bounds, Chunk, CHUNK_DEPTH, CHUNK_HEIGHT, CHUNK_WIDTH};
use crate::position::{chunk_of_block, local_of_block, BlockPosition, ChunkPosition, Conversion};

verus! {

broadcast use vstd::std_specs::hash::group_hash_axioms;

/// The key under which a chunk position is stored in the chunk map: its two
/// coordinates packed into one unsigned word.
pub open spec fn spec_pos_key(pos: ChunkPosition) -> u64 {
    ((pos.x as u32 as u64) * 0x1_0000_0000 + (pos.y as u32 as u64)) as u64
}

/// Packing a chunk position into its map key loses nothing.
pub proof fn lemma_pos_key_injective(a: ChunkPosition, b: ChunkPosition)
    requires
        spec_pos_key(a) == spec_pos_key(b),
    ensures
        a == b,
{
    lemma_fundamental_div_mod_converse(
        spec_pos_key(a) as int,
        0x1_0000_0000,
        a.x as u32 as int,
        a.y as u32 as int,
    );
    lemma_fundamental_div_mod_converse(
        spec_pos_key(b) as int,
        0x1_0000_0000,
        b.x as u32 as int,
        b.y as u32 as int,
    );
    assert(a.x as u32 == b.x as u32 && a.y as u32 == b.y as u32);
    let ax = a.x;
    let bx = b.x;
    let ay = a.y;
    let by = b.y;
    assert(ax == bx) by (bit_vector)
        requires
            ax as u32 == bx as u32,
    ;
    assert(ay == by) by (bit_vector)
        requires
            ay as u32 == by as u32,
    ;
}

/// The chunk position a global block position falls into.
pub open spec fn spec_chunk_pos_of(pos: BlockPosition) -> ChunkPosition {
    ChunkPosition { x: chunk_of_block(pos).0 as i32, y: chunk_of_block(pos).1 as i32 }
}

/// A global block position translated into the local space of its chunk.
pub open spec fn spec_local_pos_of(pos: BlockPosition) -> BlockPosition {
    BlockPosition {
        x: local_of_block(pos).0 as i32,
        y: local_of_block(pos).1 as i32,
        z: pos.z,
    }
}

/// Whether a global position's vertical coordinate lies inside the world's
/// fixed depth. The horizontal coordinates are unbounded; only `z` is
/// clamped by the chunk format.
pub open spec fn in_world_depth(pos: BlockPosition) -> bool {
    0 <= pos.z < CHUNK_DEPTH
}

/// Stores all chunks and marks dirty chunks, allowing access and
/// modification to them.
pub struct World {
    chunks: HashMap<u64, Chunk>,
    dirty_chunks: Vec<ChunkPosition>,
}

impl World {
    /// Every stored chunk is well formed and filed under the key of its own
    /// position, and the dirty list holds each position at most once.
    pub closed spec fn wf(&self) -> bool {
        &&& forall|k: u64|
            self.chunks@.contains_key(k) ==> (#[trigger] self.chunks@[k]).wf() && spec_pos_key(
                self.chunks@[k].spec_pos(),
            ) == k
        &&& forall|i: int, j: int|
            0 <= i < j < self.dirty_chunks@.len() ==> self.dirty_chunks@[i]
                != self.dirty_chunks@[j]
    }

    /// Whether a chunk is stored at a chunk position.
    pub closed spec fn spec_has_chunk(&self, pos: ChunkPosition) -> bool {
        self.chunks@.contains_key(spec_pos_key(pos))
    }

    /// The chunk stored at a chunk position.
    pub closed spec fn spec_chunk_at(&self, pos: ChunkPosition) -> Chunk
        recommends
            self.spec_has_chunk(pos),
    {
        self.chunks@[spec_pos_key(pos)]
    }

    /// The positions currently marked dirty, in the order they were first
    /// marked.
    pub closed spec fn spec_dirty(&self) -> Seq<ChunkPosition> {
        self.dirty_chunks@
    }

    /// Create a new empty world: no chunks, nothing dirty.
    pub fn new() -> (r: Self)
        ensures
            r.wf(),
            forall|pos: ChunkPosition| !r.spec_has_chunk(pos),
            r.spec_dirty() == Seq::<ChunkPosition>::empty(),
    {
        World { chunks: HashMap::new(), dirty_chunks: Vec::new() }
    }

    /// Gets the chunk at a position, or `None` when no chunk has been
    /// generated there yet — a normal condition, not an error.
    pub fn chunk(&self, pos: ChunkPosition) -> (r: Option<&Chunk>)
        requires
            self.wf(),
        ensures
            match r {
                Some(chunk) => self.spec_has_chunk(pos) && *chunk == self.spec_chunk_at(pos)
                    && chunk.wf() && chunk.spec_pos() == pos,
                None => !self.spec_has_chunk(pos),
            },
    {
        let key: u64 = Self::pos_key(pos);
        let r = self.chunks.get(&key);
        proof {
            if r is Some {
                lemma_pos_key_injective(self.chunks@[key].spec_pos(), pos);
            }
        }
        r
    }

    /// Returns whether a chunk is stored at the passed position.
    pub fn is_chunk_at_pos(&self, pos: ChunkPosition) -> (r: bool)
        requires
            self.wf(),
        ensures
            r == self.spec_has_chunk(pos),
    {
        let key: u64 = Self::pos_key(pos);
        self.chunks.contains_key(&key)
    }

    /// Stores a chunk under the position recorded in the chunk itself,
    /// replacing whatever was there.
    pub fn set_chunk(&mut self, chunk: Chunk)
        requires
            old(self).wf(),
            chunk.wf(),
        ensures
            final(self).wf(),
            final(self).spec_has_chunk(chunk.spec_pos()),
            final(self).spec_chunk_at(chunk.spec_pos()) == chunk,
            forall|q: ChunkPosition|
                q != chunk.spec_pos() ==> #[trigger] final(self).spec_has_chunk(q)
                    == old(self).spec_has_chunk(q),
            forall|q: ChunkPosition|
                q != chunk.spec_pos() && old(self).spec_has_chunk(q)
                    ==> #[trigger] final(self).spec_chunk_at(q) == old(self).spec_chunk_at(q),
            final(self).spec_dirty() == old(self).spec_dirty(),
    {
        let key: u64 = Self::pos_key(chunk.position());
        self.chunks.insert(key, chunk);
        proof {
            assert forall|q: ChunkPosition| q != chunk.spec_pos() implies #[trigger] self
                .spec_has_chunk(q) == old(self).spec_has_chunk(q) by {
                if spec_pos_key(q) == key {
                    lemma_pos_key_injective(q, chunk.spec_pos());
                }
            }
            assert forall|q: ChunkPosition|
                q != chunk.spec_pos() && old(self).spec_has_chunk(q) implies #[trigger] self
                .spec_chunk_at(q) == old(self).spec_chunk_at(q) by {
                if spec_pos_key(q) == key {
                    lemma_pos_key_injective(q, chunk.spec_pos());
                }
            }
        }
    }

    /// The map key of a chunk position.
    fn pos_key(pos: ChunkPosition) -> (r: u64)
        ensures
            r == spec_pos_key(pos),
    {
        ((pos.x as u32) as u64) * 0x1_0000_0000 + ((pos.y as u32) as u64)
    }

    /// Converts a given chunk position to its zero corner block position.
    pub fn chunk_to_block_pos(pos: ChunkPosition) -> (r: BlockPosition)
        requires
            i32::MIN <= pos.x as int * CHUNK_WIDTH as int <= i32::MAX,
            i32::MIN <= pos.y as int * CHUNK_HEIGHT as int <= i32::MAX,
        ensures
            r.x as int == pos.x as int * CHUNK_WIDTH as int,
            r.y as int == pos.y as int * CHUNK_HEIGHT as int,
            r.z == 0,
    {
        Conversion::chunk_to_block_pos(pos)
    }

    /// Gets the chunk position a block position falls into.
    pub fn block_to_chunk_pos(pos: BlockPosition) -> (r: ChunkPosition)
        ensures
            r == spec_chunk_pos_of(pos),
    {
        Conversion::block_to_chunk_pos(pos)
    }

    /// Finds the position of a block relative to its own chunk.
    pub fn global_to_local_pos(pos: BlockPosition) -> (r: BlockPosition)
        ensures
            r == spec_local_pos_of(pos),
            0 <= r.x < CHUNK_WIDTH,
            0 <= r.y < CHUNK_HEIGHT,
            in_world_depth(pos) ==> in_chunk_bounds(r),
    {
        Conversion::global_to_local_pos(pos)
    }

    /// Gets the block at a global position, or `None` when the covering
    /// chunk has not been generated — never a default block value.
    pub fn block(&self, pos: BlockPosition) -> (r: Option<Block>)
        requires
            self.wf(),
            in_world_depth(pos),
        ensures
            r is Some <==> self.spec_has_chunk(spec_chunk_pos_of(pos)),
            r matches Some(b) ==> b == spec_block_of_id(
                self.spec_chunk_at(spec_chunk_pos_of(pos)).spec_block_id_at(
                    spec_local_pos_of(pos),
                ),
            ),
    {
        let chunk_pos: ChunkPosition = Self::block_to_chunk_pos(pos);
        let local_pos: BlockPosition = Self::global_to_local_pos(pos);
        match self.chunk(chunk_pos) {
            Some(chunk) => Some(chunk.block(local_pos)),
            None => None,
        }
    }

    /// Gets whether the block at a global position is exposed, or `None`
    /// when the covering chunk has not been generated.
    pub fn block_exposed(&self, pos: BlockPosition) -> (r: Option<bool>)
        requires
            self.wf(),
            in_world_depth(pos),
        ensures
            r is Some <==> self.spec_has_chunk(spec_chunk_pos_of(pos)),
            r matches Some(e) ==> e == self.spec_chunk_at(
                spec_chunk_pos_of(pos),
            ).spec_exposed_at(spec_local_pos_of(pos)),
    {
        let chunk_pos: ChunkPosition = Self::block_to_chunk_pos(pos);
        let local_pos: BlockPosition = Self::global_to_local_pos(pos);
        match self.chunk(chunk_pos) {
            Some(chunk) => Some(chunk.block_exposed(local_pos)),
            None => None,
        }
    }
}

/// Whether two chunk positions touch along one side.
pub open spec fn spec_adjacent_chunk(q: ChunkPosition, pos: ChunkPosition) -> bool {
    ||| (q.x == pos.x - 1 && q.y == pos.y)
    ||| (q.x == pos.x + 1 && q.y == pos.y)
    ||| (q.x == pos.x && q.y == pos.y - 1)
    ||| (q.x == pos.x && q.y == pos.y + 1)
}

/// Whether a chunk position lies inside the square of the given radius
/// around an origin, Chebyshev distance, inclusive.
pub open spec fn spec_in_square(q: ChunkPosition, origin: ChunkPosition, radius: u32) -> bool {
    &&& origin.x - radius <= q.x <= origin.x + radius
    &&& origin.y - radius <= q.y <= origin.y + radius
}

/// Whether one render-data entry describes some exposed voxel of a chunk:
/// its block and its global position.
pub open spec fn spec_render_entry(
    chunk: Chunk,
    chunk_pos: ChunkPosition,
    entry: (Block, BlockPosition),
) -> bool {
    exists|q: BlockPosition|
        #![auto]
        in_chunk_bounds(q) && chunk.spec_exposed_at(q) && entry.0 == spec_block_of_id(
            chunk.spec_block_id_at(q),
        ) && entry.1 == crate::generator::spec_global_pos(chunk_pos, q)
}

/// Whether two worlds store exactly the same chunks.
pub open spec fn spec_same_chunks(a: &World, b: &World) -> bool {
    &&& forall|q: ChunkPosition| #[trigger] a.spec_has_chunk(q) == b.spec_has_chunk(q)
    &&& forall|q: ChunkPosition|
        a.spec_has_chunk(q) ==> #[trigger] a.spec_chunk_at(q) == b.spec_chunk_at(q)
}

impl World {
    /// Whether a position is already marked dirty.
    fn dirty_contains(&self, pos: ChunkPosition) -> (r: bool)
        ensures
            r == self.spec_dirty().contains(pos),
    {
        let mut i: usize = 0;
        let n: usize = self.dirty_chunks.len();
        while i < n
            invariant
                i <= n,
                n == self.dirty_chunks@.len(),
                forall|t: int| 0 <= t < i ==> self.dirty_chunks@[t] != pos,
            decreases n - i,
        {
            if self.dirty_chunks[i] == pos {
                proof {
                    assert(self.dirty_chunks@[i as int] == pos);
                }
                return true;
            }
            i += 1;
        }
        false
    }

    /// Marks one position dirty, keeping the list free of duplicates.
    fn dirty_insert(&mut self, pos: ChunkPosition)
        requires
            old(self).wf(),
        ensures
            final(self).wf(),
            forall|q: ChunkPosition|
                #[trigger] final(self).spec_dirty().contains(q) <==> (old(self).spec_dirty().contains(q) || q == pos),
            spec_same_chunks(final(self), old(self)),
    {
        broadcast use lemma_seq_contains_after_push;

        if !self.dirty_contains(pos) {
            self.dirty_chunks.push(pos);
            proof {
                assert forall|i: int, j: int|
                    0 <= i < j < self.dirty_chunks@.len() implies self.dirty_chunks@[i]
                    != self.dirty_chunks@[j] by {
                    if j == self.dirty_chunks@.len() - 1 {
                        assert(old(self).spec_dirty().contains(self.dirty_chunks@[i])) by {
                            assert(old(self).dirty_chunks@[i] == self.dirty_chunks@[i]);
                        }
                    }
                }
            }
        }
    }

    /// Marks a chunk position and its four orthogonal neighbors dirty: a
    /// block change at a chunk edge can change the neighbor's exposure
    /// along the shared face, so the neighbor must be rebuilt too.
    pub fn mark_chunks_dirty_with_adj(&mut self, pos: ChunkPosition)
        requires
            old(self).wf(),
            i32::MIN < pos.x < i32::MAX,
            i32::MIN < pos.y < i32::MAX,
        ensures
            final(self).wf(),
            forall|q: ChunkPosition|
                #[trigger] final(self).spec_dirty().contains(q) <==> (old(self).spec_dirty().contains(q) || q == pos || spec_adjacent_chunk(q, pos)),
            spec_same_chunks(final(self), old(self)),
    {
        self.dirty_insert(pos);
        self.dirty_insert(ChunkPosition { x: pos.x - 1, y: pos.y });
        self.dirty_insert(ChunkPosition { x: pos.x + 1, y: pos.y });
        self.dirty_insert(ChunkPosition { x: pos.x, y: pos.y - 1 });
        self.dirty_insert(ChunkPosition { x: pos.x, y: pos.y + 1 });
    }

    /// Takes and clears the dirty set: the returned positions are exactly
    /// those marked since the previous call, and afterwards nothing is
    /// dirty, so a second call with no intervening writes returns nothing.
    pub fn consume_dirty_chunks(&mut self) -> (r: Vec<ChunkPosition>)
        requires
            old(self).wf(),
        ensures
            final(self).wf(),
            r@ == old(self).spec_dirty(),
            final(self).spec_dirty() == Seq::<ChunkPosition>::empty(),
            spec_same_chunks(final(self), old(self)),
    {
        let mut drained: Vec<ChunkPosition> = Vec::new();
        std::mem::swap(&mut drained, &mut self.dirty_chunks);
        drained
    }

    /// Sets the block at a global position and marks the covering chunk and
    /// its neighbors dirty. Returns `None`, changing nothing, when the
    /// covering chunk has not been generated.
    pub fn set_block(&mut self, pos: BlockPosition, block: Block) -> (r: Option<()>)
        requires
            old(self).wf(),
            in_world_depth(pos),
        ensures
            final(self).wf(),
            r is Some <==> old(self).spec_has_chunk(spec_chunk_pos_of(pos)),
            r is None ==> spec_same_chunks(final(self), old(self)) && final(self).spec_dirty()
                == old(self).spec_dirty(),
            r is Some ==> {
                let cp = spec_chunk_pos_of(pos);
                let local = spec_local_pos_of(pos);
                let pre = old(self).spec_chunk_at(cp);
                let post = final(self).spec_chunk_at(cp);
                &&& forall|q: ChunkPosition|
                    q != cp ==> #[trigger] final(self).spec_has_chunk(q) == old(self).spec_has_chunk(q)
                &&& forall|q: ChunkPosition|
                    q != cp && old(self).spec_has_chunk(q) ==> #[trigger] final(self).spec_chunk_at(q) == old(self).spec_chunk_at(q)
                &&& final(self).spec_has_chunk(cp)
                &&& post.spec_pos() == pre.spec_pos()
                &&& post.spec_block_id_at(local) == crate::block::spec_block_id(block)
                &&& forall|q: BlockPosition|
                    in_chunk_bounds(q) && q != local ==> #[trigger] post.spec_block_id_at(q)
                        == pre.spec_block_id_at(q)
                &&& forall|q: BlockPosition|
                    in_chunk_bounds(q) ==> #[trigger] post.spec_exposed_at(q)
                        == pre.spec_exposed_at(q)
                &&& forall|q: BlockPosition|
                    in_chunk_bounds(q) ==> #[trigger] post.spec_sky_light_at(q)
                        == pre.spec_sky_light_at(q)
                &&& forall|q: BlockPosition|
                    in_chunk_bounds(q) ==> #[trigger] post.spec_block_light_at(q)
                        == pre.spec_block_light_at(q)
                &&& forall|z: int|
                    0 <= z < CHUNK_DEPTH ==> #[trigger] post.spec_subchunk_present(z) == (
                    pre.spec_subchunk_present(z) || (crate::chunk::spec_subchunk_index(z)
                        == crate::chunk::spec_subchunk_index(local.z as int)
                        && crate::block::spec_block_id(block) != 0))
                &&& forall|q: ChunkPosition|
                    #[trigger] final(self).spec_dirty().contains(q) <==> (old(self).spec_dirty().contains(q) || q == cp || spec_adjacent_chunk(q, cp))
            },
    {
        let chunk_pos: ChunkPosition = Self::block_to_chunk_pos(pos);
        let local_pos: BlockPosition = Self::global_to_local_pos(pos);
        let key: u64 = Self::pos_key(chunk_pos);

        match self.chunks.remove(&key) {
            Some(mut chunk) => {
                chunk.set_block(local_pos, block);
                self.chunks.insert(key, chunk);
                proof {
                    assert(self.chunks@ =~= old(self).chunks@.insert(key, chunk));
                    assert forall|q: ChunkPosition| q != chunk_pos implies #[trigger] self
                        .spec_has_chunk(q) == old(self).spec_has_chunk(q) by {
                        if spec_pos_key(q) == key {
                            lemma_pos_key_injective(q, chunk_pos);
                        }
                    }
                    assert forall|q: ChunkPosition|
                        q != chunk_pos && old(self).spec_has_chunk(q) implies #[trigger] self
                        .spec_chunk_at(q) == old(self).spec_chunk_at(q) by {
                        if spec_pos_key(q) == key {
                            lemma_pos_key_injective(q, chunk_pos);
                        }
                    }
                    lemma_chunk_pos_in_range(pos);
                }
                self.mark_chunks_dirty_with_adj(chunk_pos);
                Some(())
            },
            None => {
                proof {
                    assert(self.chunks@ =~= old(self).chunks@);
                }
                None
            },
        }
    }

    /// Sets the exposure flag of the block at a global position. Returns
    /// `None`, changing nothing, when the covering chunk has not been
    /// generated. Unlike block edits this marks nothing dirty: exposure is
    /// derived state.
    pub fn set_is_exposed(&mut self, pos: BlockPosition, value: bool) -> (r: Option<()>)
        requires
            old(self).wf(),
            in_world_depth(pos),
        ensures
            final(self).wf(),
            final(self).spec_dirty() == old(self).spec_dirty(),
            r is Some <==> old(self).spec_has_chunk(spec_chunk_pos_of(pos)),
            r is None ==> spec_same_chunks(final(self), old(self)),
            r is Some ==> {
                let cp = spec_chunk_pos_of(pos);
                let local = spec_local_pos_of(pos);
                let pre = old(self).spec_chunk_at(cp);
                let post = final(self).spec_chunk_at(cp);
                &&& forall|q: ChunkPosition|
                    #[trigger] final(self).spec_has_chunk(q) == old(self).spec_has_chunk(q)
                &&& forall|q: ChunkPosition|
                    q != cp && old(self).spec_has_chunk(q) ==> #[trigger] final(self).spec_chunk_at(q) == old(self).spec_chunk_at(q)
                &&& post.spec_pos() == pre.spec_pos()
                &&& post.spec_exposed_at(local) == (value && pre.spec_subchunk_present(
                    local.z as int,
                ))
                &&& forall|q: BlockPosition|
                    in_chunk_bounds(q) && q != local ==> #[trigger] post.spec_exposed_at(q)
                        == pre.spec_exposed_at(q)
                &&& forall|q: BlockPosition|
                    in_chunk_bounds(q) ==> #[trigger] post.spec_block_id_at(q)
                        == pre.spec_block_id_at(q)
                &&& forall|q: BlockPosition|
                    in_chunk_bounds(q) ==> #[trigger] post.spec_sky_light_at(q)
                        == pre.spec_sky_light_at(q)
                &&& forall|q: BlockPosition|
                    in_chunk_bounds(q) ==> #[trigger] post.spec_block_light_at(q)
                        == pre.spec_block_light_at(q)
                &&& forall|z: int|
                    0 <= z < CHUNK_DEPTH ==> #[trigger] post.spec_subchunk_present(z)
                        == pre.spec_subchunk_present(z)
            },
    {
        let chunk_pos: ChunkPosition = Self::block_to_chunk_pos(pos);
        let local_pos: BlockPosition = Self::global_to_local_pos(pos);
        let key: u64 = Self::pos_key(chunk_pos);

        match self.chunks.remove(&key) {
            Some(mut chunk) => {
                chunk.set_block_exposed(local_pos, value);
                self.chunks.insert(key, chunk);
                proof {
                    assert(self.chunks@ =~= old(self).chunks@.insert(key, chunk));
                    assert forall|q: ChunkPosition| #[trigger] self.spec_has_chunk(q) == old(self).spec_has_chunk(q) by {
                        if q != chunk_pos && spec_pos_key(q) == key {
                            lemma_pos_key_injective(q, chunk_pos);
                        }
                    }
                    assert forall|q: ChunkPosition|
                        q != chunk_pos && old(self).spec_has_chunk(q) implies #[trigger] self
                        .spec_chunk_at(q) == old(self).spec_chunk_at(q) by {
                        if spec_pos_key(q) == key {
                            lemma_pos_key_injective(q, chunk_pos);
                        }
                    }
                }
                Some(())
            },
            None => {
                proof {
                    assert(self.chunks@ =~= old(self).chunks@);
                }
                None
            },
        }
    }

    /// Collects the render data of a loaded chunk: each exposed voxel's
    /// block together with its global position, or `None` when no chunk is
    /// stored at the position. Only exposed voxels are worth meshing.
    pub fn chunk_render_data(&self, chunk_pos: ChunkPosition) -> (r: Option<
        Vec<(Block, BlockPosition)>,
    >)
        requires
            self.wf(),
            i32::MIN <= chunk_pos.x as int * CHUNK_WIDTH as int,
            chunk_pos.x as int * CHUNK_WIDTH as int + CHUNK_WIDTH <= i32::MAX,
            i32::MIN <= chunk_pos.y as int * CHUNK_HEIGHT as int,
            chunk_pos.y as int * CHUNK_HEIGHT as int + CHUNK_HEIGHT <= i32::MAX,
        ensures
            r is Some <==> self.spec_has_chunk(chunk_pos),
            r matches Some(v) ==> {
                &&& forall|t: int|
                    0 <= t < v@.len() ==> spec_render_entry(
                        self.spec_chunk_at(chunk_pos),
                        chunk_pos,
                        #[trigger] v@[t],
                    )
                &&& forall|q: BlockPosition|
                    in_chunk_bounds(q) && self.spec_chunk_at(chunk_pos).spec_exposed_at(q)
                        ==> v@.contains(
                        (
                            spec_block_of_id(self.spec_chunk_at(chunk_pos).spec_block_id_at(q)),
                            #[trigger] crate::generator::spec_global_pos(chunk_pos, q),
                        ),
                    )
            },
    {
        broadcast use lemma_seq_contains_after_push;

        let chunk: &Chunk = match self.chunk(chunk_pos) {
            Some(chunk) => chunk,
            None => {
                return None;
            },
        };
        let origin: BlockPosition = Conversion::chunk_to_block_pos(chunk_pos);
        let coords: Vec<BlockPosition> = Chunk::chunk_coords();
        let mut v: Vec<(Block, BlockPosition)> = Vec::new();
        let mut t: usize = 0;
        while t < coords.len()
            invariant
                t <= coords@.len(),
                self.wf(),
                self.spec_has_chunk(chunk_pos),
                *chunk == self.spec_chunk_at(chunk_pos),
                chunk.wf(),
                origin.x as int == chunk_pos.x as int * CHUNK_WIDTH as int,
                origin.y as int == chunk_pos.y as int * CHUNK_HEIGHT as int,
                i32::MIN <= chunk_pos.x as int * CHUNK_WIDTH as int,
                chunk_pos.x as int * CHUNK_WIDTH as int + CHUNK_WIDTH <= i32::MAX,
                i32::MIN <= chunk_pos.y as int * CHUNK_HEIGHT as int,
                chunk_pos.y as int * CHUNK_HEIGHT as int + CHUNK_HEIGHT <= i32::MAX,
                coords@.len() == crate::chunk::CHUNK_VOLUME,
                forall|u: int|
                    0 <= u < coords@.len() ==> in_chunk_bounds(#[trigger] coords@[u]),
                forall|u: int|
                    0 <= u < coords@.len() ==> crate::chunk::spec_chunk_flat_index(
                        #[trigger] coords@[u],
                    ) == u,
                forall|tt: int|
                    0 <= tt < v@.len() ==> spec_render_entry(
                        *chunk,
                        chunk_pos,
                        #[trigger] v@[tt],
                    ),
                forall|q: BlockPosition|
                    in_chunk_bounds(q) && chunk.spec_exposed_at(q)
                        && crate::chunk::spec_chunk_flat_index(q) < t ==> v@.contains(
                        (
                            spec_block_of_id(chunk.spec_block_id_at(q)),
                            #[trigger] crate::generator::spec_global_pos(chunk_pos, q),
                        ),
                    ),
            decreases coords@.len() - t,
        {
            let q: BlockPosition = coords[t];
            let ghost prev = v@;
            if chunk.block_exposed(q) {
                let block: Block = chunk.block(q);
                let global: BlockPosition = BlockPosition {
                    x: origin.x + q.x,
                    y: origin.y + q.y,
                    z: q.z,
                };
                v.push((block, global));
                proof {
                    assert(global == crate::generator::spec_global_pos(chunk_pos, q));
                    assert(spec_render_entry(*chunk, chunk_pos, v@[prev.len() as int]));
                }
            }
            proof {
                assert forall|lq: BlockPosition|
                    in_chunk_bounds(lq) && chunk.spec_exposed_at(lq)
                        && crate::chunk::spec_chunk_flat_index(lq) < t + 1 implies v@.contains(
                    (
                        spec_block_of_id(chunk.spec_block_id_at(lq)),
                        #[trigger] crate::generator::spec_global_pos(chunk_pos, lq),
                    ),
                ) by {
                    let item = (
                        spec_block_of_id(chunk.spec_block_id_at(lq)),
                        crate::generator::spec_global_pos(chunk_pos, lq),
                    );
                    if crate::chunk::spec_chunk_flat_index(lq) < t {
                        let w = choose|w: int| 0 <= w < prev.len() && prev[w] == item;
                        assert(v@[w] == item);
                    } else {
                        crate::chunk::lemma_chunk_flat_index_injective(lq, q);
                        assert(v@[prev.len() as int] == item);
                    }
                }
            }
            t += 1;
        }
        proof {
            assert forall|q: BlockPosition|
                in_chunk_bounds(q) && chunk.spec_exposed_at(q) implies v@.contains(
                (
                    spec_block_of_id(chunk.spec_block_id_at(q)),
                    #[trigger] crate::generator::spec_global_pos(chunk_pos, q),
                ),
            ) by {
                crate::chunk::lemma_chunk_coords_cover(q);
            }
        }
        Some(v)
    }

    /// Gets all chunk positions in a square around the passed origin
    /// position, inclusive of the boundary; radius 0 yields exactly the
    /// origin.
    pub fn positions_in_square(origin: ChunkPosition, radius: u32) -> (r: Vec<ChunkPosition>)
        requires
            i32::MIN <= origin.x - radius,
            origin.x + radius < i32::MAX,
            i32::MIN <= origin.y - radius,
            origin.y + radius < i32::MAX,
        ensures
            r@.len() == (2 * radius + 1) * (2 * radius + 1),
            forall|t: int| 0 <= t < r@.len() ==> spec_in_square(#[trigger] r@[t], origin, radius),
            forall|q: ChunkPosition| spec_in_square(q, origin, radius) ==> r@.contains(q),
    {
        broadcast use lemma_seq_contains_after_push;

        let mut r: Vec<ChunkPosition> = Vec::new();
        let side: u64 = 2 * (radius as u64) + 1;
        let lo_x: i32 = origin.x - (radius as i32);
        let hi_x: i32 = origin.x + (radius as i32);
        let lo_y: i32 = origin.y - (radius as i32);
        let hi_y: i32 = origin.y + (radius as i32);
        proof {
            assert(radius as i32 == radius) by (bit_vector)
                requires
                    radius <= 0x7fff_ffff,
            ;
        }

        let mut cx: i32 = lo_x;
        while cx <= hi_x
            invariant
                lo_x <= cx <= hi_x + 1,
                hi_x < i32::MAX,
                hi_y < i32::MAX,
                lo_x == origin.x - radius,
                hi_x == origin.x + radius,
                lo_y == origin.y - radius,
                hi_y == origin.y + radius,
                side == 2 * radius + 1,
                r@.len() == (cx - lo_x) * side,
                forall|t: int|
                    0 <= t < r@.len() ==> spec_in_square(#[trigger] r@[t], origin, radius),
                forall|q: ChunkPosition|
                    spec_in_square(q, origin, radius) && q.x < cx ==> r@.contains(q),
            decreases hi_x + 1 - cx,
        {
            let mut cy: i32 = lo_y;
            while cy <= hi_y
                invariant
                    lo_y <= cy <= hi_y + 1,
                    hi_x < i32::MAX,
                    hi_y < i32::MAX,
                    lo_x <= cx <= hi_x,
                    lo_x == origin.x - radius,
                    hi_x == origin.x + radius,
                    lo_y == origin.y - radius,
                    hi_y == origin.y + radius,
                    side == 2 * radius + 1,
                    r@.len() == (cx - lo_x) * side + (cy - lo_y),
                    forall|t: int|
                        0 <= t < r@.len() ==> spec_in_square(#[trigger] r@[t], origin, radius),
                    forall|q: ChunkPosition|
                        spec_in_square(q, origin, radius) && (q.x < cx || (q.x == cx && q.y < cy))
                            ==> r@.contains(q),
                decreases hi_y + 1 - cy,
            {
                let ghost prev = r@;
                r.push(ChunkPosition { x: cx, y: cy });
                proof {
                    assert forall|q: ChunkPosition|
                        spec_in_square(q, origin, radius) && (q.x < cx || (q.x == cx && q.y < cy
                            + 1)) implies r@.contains(q) by {
                        if q.x == cx && q.y == cy {
                            assert(r@[prev.len() as int] == q);
                        } else {
                            let w = choose|w: int| 0 <= w < prev.len() && prev[w] == q;
                            assert(r@[w] == q);
                        }
                    }
                }
                cy += 1;
            }
            proof {
                assert((cx + 1 - lo_x) * side == (cx - lo_x) * side + side) by (nonlinear_arith);
            }
            cx += 1;
        }
        proof {
            assert(((hi_x + 1 - lo_x) * side) as int == ((2 * radius + 1) * (2 * radius
                + 1)) as int) by (nonlinear_arith)
                requires
                    hi_x + 1 - lo_x == 2 * radius + 1,
                    side == 2 * radius + 1,
            ;
        }
        r
    }

    /// Gets the positions in a square around the origin at which a chunk is
    /// stored.
    pub fn chunks_in_square(&self, origin: ChunkPosition, radius: u32) -> (r: Vec<ChunkPosition>)
        requires
            self.wf(),
            i32::MIN <= origin.x - radius,
            origin.x + radius < i32::MAX,
            i32::MIN <= origin.y - radius,
            origin.y + radius < i32::MAX,
        ensures
            forall|t: int|
                0 <= t < r@.len() ==> spec_in_square(#[trigger] r@[t], origin, radius)
                    && self.spec_has_chunk(r@[t]),
            forall|q: ChunkPosition|
                spec_in_square(q, origin, radius) && self.spec_has_chunk(q) ==> r@.contains(q),
    {
        broadcast use lemma_seq_contains_after_push;

        let positions: Vec<ChunkPosition> = Self::positions_in_square(origin, radius);
        let mut r: Vec<ChunkPosition> = Vec::new();
        let mut i: usize = 0;
        while i < positions.len()
            invariant
                self.wf(),
                i <= positions@.len(),
                forall|t: int|
                    0 <= t < positions@.len() ==> spec_in_square(
                        #[trigger] positions@[t],
                        origin,
                        radius,
                    ),
                forall|q: ChunkPosition|
                    spec_in_square(q, origin, radius) ==> positions@.contains(q),
                forall|t: int|
                    0 <= t < r@.len() ==> spec_in_square(#[trigger] r@[t], origin, radius)
                        && self.spec_has_chunk(r@[t]),
                forall|t: int|
                    0 <= t < i && self.spec_has_chunk(#[trigger] positions@[t]) ==> r@.contains(
                        positions@[t],
                    ),
            decreases positions@.len() - i,
        {
            let pos: ChunkPosition = positions[i];
            let ghost prev = r@;
            if self.is_chunk_at_pos(pos) {
                r.push(pos);
            }
            proof {
                assert forall|t: int|
                    0 <= t < i + 1 && self.spec_has_chunk(#[trigger] positions@[t]) implies r@
                    .contains(positions@[t]) by {
                    if t == i {
                        assert(r@[prev.len() as int] == pos);
                    } else {
                        let w = choose|w: int| 0 <= w < prev.len() && prev[w] == positions@[t];
                        assert(r@[w] == positions@[t]);
                    }
                }
            }
            i += 1;
        }
        proof {
            assert forall|q: ChunkPosition|
                spec_in_square(q, origin, radius) && self.spec_has_chunk(q) implies r@.contains(
                q,
            ) by {
                let t = choose|t: int|
                    0 <= t < positions@.len() && positions@[t] == q;
                assert(self.spec_has_chunk(positions@[t]));
            }
        }
        r
    }
}

/// A global position inside the world depth translates to an in-bounds
/// local position of its chunk.
pub proof fn lemma_local_pos_in_bounds(pos: BlockPosition)
    requires
        in_world_depth(pos),
    ensures
        in_chunk_bounds(spec_local_pos_of(pos)),
{
}

/// The pair of chunk position and chunk-local position determines the
/// global position: two distinct global positions never collide.
pub proof fn lemma_global_pos_injective(p: BlockPosition, q: BlockPosition)
    requires
        p != q,
        spec_chunk_pos_of(p) == spec_chunk_pos_of(q),
    ensures
        spec_local_pos_of(p) != spec_local_pos_of(q),
{
    crate::position::lemma_position_round_trip(p);
    crate::position::lemma_position_round_trip(q);
}

/// The chunk position of any global block position, and its four
/// neighbors, stay inside the signed coordinate range.
proof fn lemma_chunk_pos_in_range(pos: BlockPosition)
    ensures
        i32::MIN < spec_chunk_pos_of(pos).x < i32::MAX,
        i32::MIN < spec_chunk_pos_of(pos).y < i32::MAX,
{
    vstd::arithmetic::div_mod::lemma_div_is_ordered(
        i32::MIN as int,
        pos.x as int,
        CHUNK_WIDTH as int,
    );
    vstd::arithmetic::div_mod::lemma_div_is_ordered(
        pos.x as int,
        i32::MAX as int,
        CHUNK_WIDTH as int,
    );
    vstd::arithmetic::div_mod::lemma_div_is_ordered(
        i32::MIN as int,
        pos.y as int,
        CHUNK_HEIGHT as int,
    );
    vstd::arithmetic::div_mod::lemma_div_is_ordered(
        pos.y as int,
        i32::MAX as int,
        CHUNK_HEIGHT as int,
    );
}

/// Consuming the dirty set drains it: one call returns everything marked
/// since the last consumption and clears the set, so a second call with no
/// intervening marking returns nothing. The two calls are summarized here
/// by their contracts: `r1` and `w2` come out of the first call on `w1`,
/// and `r2` out of the second call on `w2`.
pub proof fn lemma_consume_dirty_drains(
    w1: &World,
    r1: Seq<ChunkPosition>,
    w2: &World,
    r2: Seq<ChunkPosition>,
)
    requires
        r1 == w1.spec_dirty(),
        w2.spec_dirty() == Seq::<ChunkPosition>::empty(),
        r2 == w2.spec_dirty(),
    ensures
        r1 == w1.spec_dirty(),
        r2 == Seq::<ChunkPosition>::empty(),
{
}

} // verus!
