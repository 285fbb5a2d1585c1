//! A chunk: a vertical stack of subchunks presenting one flat
//! three-dimensional voxel address space.
//!
//! A local position `(x, y, z)` with `z` in `[0, CHUNK_DEPTH)` is routed to
//! the subchunk at index `z / SUBCHUNK_DEPTH`, at the position with `z`
//! replaced by `z % SUBCHUNK_DEPTH`. Subchunks are allocated lazily and
//! freed again when they revert to all-air.

use vstd::arithmetic::div_mod::lemma_fundamental_div_mod;
use vstd::prelude::*;

use crate::block::{spec_block_id, spec_block_of_id, Block};
use crate::position::{BlockPosition, ChunkPosition};
use crate::section::{in_section_bounds, spec_item_index};
use crate::subchunk::{Subchunk, SUBCHUNK_DEPTH};

verus! {

broadcast use crate::subchunk::group_subchunk_view_lens;

/// Number of subchunks stacked in one chunk.
pub const SUBCHUNKS_IN_CHUNK: usize = 4;

/// Width of a chunk in voxels along the x axis, equal to a subchunk's.
pub const CHUNK_WIDTH: usize = 16;

/// Height of a chunk in voxels along the y axis, equal to a subchunk's.
pub const CHUNK_HEIGHT: usize = 16;

/// Depth of a chunk in voxels along the z axis: the subchunk depth times
/// the number of subchunks in the stack.
pub const CHUNK_DEPTH: usize = 64;

/// Number of voxels in a chunk.
pub const CHUNK_VOLUME: usize = CHUNK_WIDTH * CHUNK_HEIGHT * CHUNK_DEPTH;

/// Whether a position lies inside the local bounds of a chunk.
pub open spec fn in_chunk_bounds(pos: BlockPosition) -> bool {
    &&& 0 <= pos.x < CHUNK_WIDTH
    &&& 0 <= pos.y < CHUNK_HEIGHT
    &&& 0 <= pos.z < CHUNK_DEPTH
}

/// The index of the subchunk a local vertical coordinate falls into.
pub open spec fn spec_subchunk_index(z: int) -> int {
    z / SUBCHUNK_DEPTH as int
}

/// A local chunk position translated into its subchunk's coordinate space.
pub open spec fn spec_sub_pos(pos: BlockPosition) -> BlockPosition {
    BlockPosition { x: pos.x, y: pos.y, z: ((pos.z as int) % (SUBCHUNK_DEPTH as int)) as i32 }
}

/// Two distinct in-bounds positions never land on the same voxel of the
/// same subchunk.
proof fn lemma_routing_injective(pos: BlockPosition, other: BlockPosition)
    requires
        in_chunk_bounds(pos),
        in_chunk_bounds(other),
        pos != other,
    ensures
        spec_subchunk_index(pos.z as int) != spec_subchunk_index(other.z as int)
            || spec_sub_pos(pos) != spec_sub_pos(other),
{
    lemma_fundamental_div_mod(pos.z as int, SUBCHUNK_DEPTH as int);
    lemma_fundamental_div_mod(other.z as int, SUBCHUNK_DEPTH as int);
}

/// A position inside the chunk bounds routes to a subchunk index inside
/// the stack and a position inside the subchunk bounds.
proof fn lemma_routing_in_bounds(pos: BlockPosition)
    requires
        in_chunk_bounds(pos),
    ensures
        0 <= spec_subchunk_index(pos.z as int) < SUBCHUNKS_IN_CHUNK,
        in_section_bounds(spec_sub_pos(pos)),
{
    lemma_fundamental_div_mod(pos.z as int, SUBCHUNK_DEPTH as int);
}

/// A vertical column of subchunks addressed by a two-dimensional chunk
/// position.
pub struct Chunk {
    /// The chunk's own position in the world's two-dimensional grid.
    pub pos: ChunkPosition,
    subchunks: Vec<Option<Subchunk>>,
}

impl Chunk {
    /// The chunk's position in the world grid.
    pub closed spec fn spec_pos(&self) -> ChunkPosition {
        self.pos
    }

    /// The stack always holds one optional subchunk per slab, and every
    /// allocated subchunk is well formed and holds at least one non-air
    /// block.
    pub closed spec fn wf(&self) -> bool {
        &&& self.subchunks@.len() == SUBCHUNKS_IN_CHUNK
        &&& forall|i: int|
            0 <= i < SUBCHUNKS_IN_CHUNK ==> match #[trigger] self.subchunks@[i] {
                Some(sub) => sub.wf() && !sub.spec_is_empty(),
                None => true,
            }
    }

    /// Whether the subchunk covering a local vertical coordinate is
    /// allocated.
    pub closed spec fn spec_subchunk_present(&self, z: int) -> bool {
        self.subchunks@[spec_subchunk_index(z)] is Some
    }

    /// The block identifier stored at a local position; an absent subchunk
    /// reads as air.
    pub closed spec fn spec_block_id_at(&self, pos: BlockPosition) -> u64 {
        match self.subchunks@[spec_subchunk_index(pos.z as int)] {
            Some(sub) => sub.spec_blocks()[spec_item_index(spec_sub_pos(pos))],
            None => 0,
        }
    }

    /// The sky light level stored at a local position.
    pub closed spec fn spec_sky_light_at(&self, pos: BlockPosition) -> u64 {
        match self.subchunks@[spec_subchunk_index(pos.z as int)] {
            Some(sub) => sub.spec_sky_light()[spec_item_index(spec_sub_pos(pos))],
            None => 0,
        }
    }

    /// The block light level stored at a local position.
    pub closed spec fn spec_block_light_at(&self, pos: BlockPosition) -> u64 {
        match self.subchunks@[spec_subchunk_index(pos.z as int)] {
            Some(sub) => sub.spec_block_light()[spec_item_index(spec_sub_pos(pos))],
            None => 0,
        }
    }

    /// Whether the block at a local position is flagged as exposed.
    pub closed spec fn spec_exposed_at(&self, pos: BlockPosition) -> bool {
        match self.subchunks@[spec_subchunk_index(pos.z as int)] {
            Some(sub) => sub.spec_exposed()[spec_item_index(spec_sub_pos(pos))] != 0,
            None => false,
        }
    }

    /// A chunk is empty when every subchunk is absent: the whole column is
    /// air.
    pub closed spec fn spec_is_empty(&self) -> bool {
        forall|i: int| 0 <= i < SUBCHUNKS_IN_CHUNK ==> (#[trigger] self.subchunks@[i]) is None
    }

    /// The chunk's position in the world grid.
    pub fn position(&self) -> (r: ChunkPosition)
        ensures
            r == self.spec_pos(),
    {
        self.pos
    }

    /// Create a new zeroed out chunk at a position.
    pub fn new(pos: ChunkPosition) -> (r: Self)
        ensures
            r.wf(),
            r.spec_is_empty(),
            r.spec_pos() == pos,
            forall|q: BlockPosition| in_chunk_bounds(q) ==> r.spec_block_id_at(q) == 0,
            forall|q: BlockPosition| in_chunk_bounds(q) ==> r.spec_sky_light_at(q) == 0,
            forall|q: BlockPosition| in_chunk_bounds(q) ==> r.spec_block_light_at(q) == 0,
            forall|q: BlockPosition| in_chunk_bounds(q) ==> !r.spec_exposed_at(q),
    {
        let mut subchunks: Vec<Option<Subchunk>> = Vec::new();
        let mut i: usize = 0;
        while i < SUBCHUNKS_IN_CHUNK
            invariant
                i <= SUBCHUNKS_IN_CHUNK,
                subchunks@.len() == i,
                forall|t: int| 0 <= t < i ==> (#[trigger] subchunks@[t]) is None,
            decreases SUBCHUNKS_IN_CHUNK - i,
        {
            subchunks.push(None);
            i += 1;
        }
        let r = Chunk { pos, subchunks };
        proof {
            assert forall|q: BlockPosition| in_chunk_bounds(q) implies r.spec_block_id_at(q) == 0
                && r.spec_sky_light_at(q) == 0 && r.spec_block_light_at(q) == 0
                && !r.spec_exposed_at(q) by {
                lemma_routing_in_bounds(q);
            }
        }
        r
    }

    /// The subchunk index of a local vertical coordinate.
    fn subchunk_index(pos_z: i32) -> (r: usize)
        requires
            0 <= pos_z < CHUNK_DEPTH,
        ensures
            r == spec_subchunk_index(pos_z as int),
            r < SUBCHUNKS_IN_CHUNK,
    {
        (pos_z as usize) / SUBCHUNK_DEPTH
    }

    /// A local chunk position translated into its subchunk's coordinate
    /// space.
    fn local_to_sub(pos: BlockPosition) -> (r: BlockPosition)
        requires
            in_chunk_bounds(pos),
        ensures
            r == spec_sub_pos(pos),
            in_section_bounds(r),
    {
        proof {
            lemma_routing_in_bounds(pos);
        }
        BlockPosition { x: pos.x, y: pos.y, z: ((pos.z as usize) % SUBCHUNK_DEPTH) as i32 }
    }

    /// Gets the block at a local position; anything outside an allocated
    /// subchunk reads as air.
    pub fn block(&self, pos: BlockPosition) -> (r: Block)
        requires
            self.wf(),
            in_chunk_bounds(pos),
        ensures
            r == spec_block_of_id(self.spec_block_id_at(pos)),
    {
        let index: usize = Self::subchunk_index(pos.z);
        match &self.subchunks[index] {
            Some(subchunk) => subchunk.block(Self::local_to_sub(pos)),
            None => Block::Air,
        }
    }

    /// Gets the sky light level at a local position.
    pub fn sky_light(&self, pos: BlockPosition) -> (r: u8)
        requires
            self.wf(),
            in_chunk_bounds(pos),
        ensures
            r == self.spec_sky_light_at(pos),
    {
        let index: usize = Self::subchunk_index(pos.z);
        match &self.subchunks[index] {
            Some(subchunk) => subchunk.sky_light(Self::local_to_sub(pos)),
            None => 0,
        }
    }

    /// Gets the block light level at a local position.
    pub fn block_light(&self, pos: BlockPosition) -> (r: u8)
        requires
            self.wf(),
            in_chunk_bounds(pos),
        ensures
            r == self.spec_block_light_at(pos),
    {
        let index: usize = Self::subchunk_index(pos.z);
        match &self.subchunks[index] {
            Some(subchunk) => subchunk.block_light(Self::local_to_sub(pos)),
            None => 0,
        }
    }

    /// Gets whether the block at a local position is exposed.
    pub fn block_exposed(&self, pos: BlockPosition) -> (r: bool)
        requires
            self.wf(),
            in_chunk_bounds(pos),
        ensures
            r == self.spec_exposed_at(pos),
    {
        let index: usize = Self::subchunk_index(pos.z);
        match &self.subchunks[index] {
            Some(subchunk) => subchunk.block_exposed(Self::local_to_sub(pos)),
            None => false,
        }
    }

    /// Sets the block at a local position, allocating the covering
    /// subchunk on the first non-air write.
    pub fn set_block(&mut self, pos: BlockPosition, value: Block)
        requires
            old(self).wf(),
            in_chunk_bounds(pos),
        ensures
            final(self).wf(),
            final(self).spec_pos() == old(self).spec_pos(),
            final(self).spec_block_id_at(pos) == spec_block_id(value),
            forall|q: BlockPosition|
                in_chunk_bounds(q) && q != pos ==> final(self).spec_block_id_at(q) == old(
                    self,
                ).spec_block_id_at(q),
            forall|q: BlockPosition|
                in_chunk_bounds(q) ==> final(self).spec_sky_light_at(q) == old(
                    self,
                ).spec_sky_light_at(q),
            forall|q: BlockPosition|
                in_chunk_bounds(q) ==> final(self).spec_block_light_at(q) == old(
                    self,
                ).spec_block_light_at(q),
            forall|q: BlockPosition|
                in_chunk_bounds(q) ==> final(self).spec_exposed_at(q) == old(
                    self,
                ).spec_exposed_at(q),
            forall|z: int|
                0 <= z < CHUNK_DEPTH ==> final(self).spec_subchunk_present(z) == (old(
                    self,
                ).spec_subchunk_present(z) || (spec_subchunk_index(z) == spec_subchunk_index(
                    pos.z as int,
                ) && spec_block_id(value) != 0)),
            final(self).spec_is_empty() <==> (old(self).spec_is_empty() && spec_block_id(value)
                == 0),
    {
        let index: usize = Self::subchunk_index(pos.z);
        let sub_pos: BlockPosition = Self::local_to_sub(pos);
        let id: u64 = value.to_id();
        proof {
            lemma_routing_in_bounds(pos);
        }

        if id == 0 && self.subchunks[index].is_none() {
            proof {
                lemma_chunk_routing_cases(*self, *self, pos, index as int);
            }
            return ;
        }

        let sub_opt: &mut Option<Subchunk> = &mut self.subchunks[index];
        if sub_opt.is_none() {
            *sub_opt = Some(Subchunk::new());
        }
        let mut became_empty = false;
        match sub_opt {
            Some(subchunk) => {
                subchunk.set_block(sub_pos, value);
                became_empty = subchunk.is_empty();
            },
            None => {
                proof {
                    assert(false);
                }
            },
        }
        if became_empty {
            *sub_opt = None;
        }
        proof {
            assert(self.subchunks@.len() == SUBCHUNKS_IN_CHUNK);
            assert(forall|i: int|
                0 <= i < SUBCHUNKS_IN_CHUNK && i != index ==> self.subchunks@[i] == old(
                    self,
                ).subchunks@[i]);
            assert(self.subchunks@[index as int] is Some);
            assert(self.spec_block_id_at(pos) == spec_block_id(value));
            lemma_chunk_routing_cases(*old(self), *self, pos, index as int);
        }
    }

    /// Sets the sky light level at a local position.
    ///
    /// The write lands only if the covering subchunk is allocated, that is
    /// if the slab holds at least one non-air block: a slab of pure air
    /// stores no light and keeps costing nothing.
    pub fn set_sky_light(&mut self, pos: BlockPosition, value: u8)
        requires
            old(self).wf(),
            in_chunk_bounds(pos),
        ensures
            final(self).wf(),
            final(self).spec_pos() == old(self).spec_pos(),
            final(self).spec_sky_light_at(pos) == if old(self).spec_subchunk_present(
                pos.z as int,
            ) {
                value as u64
            } else {
                0u64
            },
            forall|q: BlockPosition|
                in_chunk_bounds(q) && q != pos ==> final(self).spec_sky_light_at(q) == old(
                    self,
                ).spec_sky_light_at(q),
            forall|q: BlockPosition|
                in_chunk_bounds(q) ==> final(self).spec_block_id_at(q) == old(
                    self,
                ).spec_block_id_at(q),
            forall|q: BlockPosition|
                in_chunk_bounds(q) ==> final(self).spec_block_light_at(q) == old(
                    self,
                ).spec_block_light_at(q),
            forall|q: BlockPosition|
                in_chunk_bounds(q) ==> final(self).spec_exposed_at(q) == old(
                    self,
                ).spec_exposed_at(q),
            forall|z: int|
                0 <= z < CHUNK_DEPTH ==> final(self).spec_subchunk_present(z) == old(
                    self,
                ).spec_subchunk_present(z),
            final(self).spec_is_empty() == old(self).spec_is_empty(),
    {
        let index: usize = Self::subchunk_index(pos.z);
        let sub_pos: BlockPosition = Self::local_to_sub(pos);

        if value == 0 && self.subchunks[index].is_none() {
            proof {
                lemma_chunk_routing_cases(*self, *self, pos, index as int);
            }
            return ;
        }

        let sub_opt: &mut Option<Subchunk> = &mut self.subchunks[index];
        if sub_opt.is_none() {
            *sub_opt = Some(Subchunk::new());
        }
        let mut became_empty = false;
        match sub_opt {
            Some(subchunk) => {
                subchunk.set_sky_light(sub_pos, value);
                became_empty = subchunk.is_empty();
            },
            None => {
                proof {
                    assert(false);
                }
            },
        }
        if became_empty {
            *sub_opt = None;
        }
        proof {
            assert forall|i: int| 0 <= i < SUBCHUNKS_IN_CHUNK implies ((#[trigger] self.subchunks@[i]) is None) == (old(self).subchunks@[i] is None) by {}
            if old(self).spec_is_empty() {
                assert forall|i: int|
                    0 <= i < SUBCHUNKS_IN_CHUNK implies (#[trigger] self.subchunks@[i]) is None by {
                    assert(old(self).subchunks@[i] is None);
                }
            }
            if self.spec_is_empty() {
                assert forall|i: int|
                    0 <= i < SUBCHUNKS_IN_CHUNK implies (#[trigger] old(self).subchunks@[i]) is None by {
                    assert(self.subchunks@[i] is None);
                }
            }
            lemma_chunk_routing_cases(*old(self), *self, pos, index as int);
        }
    }

    /// Sets the block light level at a local position.
    ///
    /// As with sky light, the write lands only if the covering subchunk is
    /// allocated.
    pub fn set_block_light(&mut self, pos: BlockPosition, value: u8)
        requires
            old(self).wf(),
            in_chunk_bounds(pos),
        ensures
            final(self).wf(),
            final(self).spec_pos() == old(self).spec_pos(),
            final(self).spec_block_light_at(pos) == if old(self).spec_subchunk_present(
                pos.z as int,
            ) {
                value as u64
            } else {
                0u64
            },
            forall|q: BlockPosition|
                in_chunk_bounds(q) && q != pos ==> final(self).spec_block_light_at(q) == old(
                    self,
                ).spec_block_light_at(q),
            forall|q: BlockPosition|
                in_chunk_bounds(q) ==> final(self).spec_block_id_at(q) == old(
                    self,
                ).spec_block_id_at(q),
            forall|q: BlockPosition|
                in_chunk_bounds(q) ==> final(self).spec_sky_light_at(q) == old(
                    self,
                ).spec_sky_light_at(q),
            forall|q: BlockPosition|
                in_chunk_bounds(q) ==> final(self).spec_exposed_at(q) == old(
                    self,
                ).spec_exposed_at(q),
            forall|z: int|
                0 <= z < CHUNK_DEPTH ==> final(self).spec_subchunk_present(z) == old(
                    self,
                ).spec_subchunk_present(z),
            final(self).spec_is_empty() == old(self).spec_is_empty(),
    {
        let index: usize = Self::subchunk_index(pos.z);
        let sub_pos: BlockPosition = Self::local_to_sub(pos);

        if value == 0 && self.subchunks[index].is_none() {
            proof {
                lemma_chunk_routing_cases(*self, *self, pos, index as int);
            }
            return ;
        }

        let sub_opt: &mut Option<Subchunk> = &mut self.subchunks[index];
        if sub_opt.is_none() {
            *sub_opt = Some(Subchunk::new());
        }
        let mut became_empty = false;
        match sub_opt {
            Some(subchunk) => {
                subchunk.set_block_light(sub_pos, value);
                became_empty = subchunk.is_empty();
            },
            None => {
                proof {
                    assert(false);
                }
            },
        }
        if became_empty {
            *sub_opt = None;
        }
        proof {
            assert forall|i: int| 0 <= i < SUBCHUNKS_IN_CHUNK implies ((#[trigger] self.subchunks@[i]) is None) == (old(self).subchunks@[i] is None) by {}
            if old(self).spec_is_empty() {
                assert forall|i: int|
                    0 <= i < SUBCHUNKS_IN_CHUNK implies (#[trigger] self.subchunks@[i]) is None by {
                    assert(old(self).subchunks@[i] is None);
                }
            }
            if self.spec_is_empty() {
                assert forall|i: int|
                    0 <= i < SUBCHUNKS_IN_CHUNK implies (#[trigger] old(self).subchunks@[i]) is None by {
                    assert(self.subchunks@[i] is None);
                }
            }
            lemma_chunk_routing_cases(*old(self), *self, pos, index as int);
        }
    }

    /// Sets whether the block at a local position is exposed.
    ///
    /// As with the light channels, the flag lands only if the covering
    /// subchunk is allocated; an all-air slab has nothing to expose.
    pub fn set_block_exposed(&mut self, pos: BlockPosition, value: bool)
        requires
            old(self).wf(),
            in_chunk_bounds(pos),
        ensures
            final(self).wf(),
            final(self).spec_pos() == old(self).spec_pos(),
            final(self).spec_exposed_at(pos) == (value && old(self).spec_subchunk_present(
                pos.z as int,
            )),
            forall|q: BlockPosition|
                in_chunk_bounds(q) && q != pos ==> final(self).spec_exposed_at(q) == old(
                    self,
                ).spec_exposed_at(q),
            forall|q: BlockPosition|
                in_chunk_bounds(q) ==> final(self).spec_block_id_at(q) == old(
                    self,
                ).spec_block_id_at(q),
            forall|q: BlockPosition|
                in_chunk_bounds(q) ==> final(self).spec_sky_light_at(q) == old(
                    self,
                ).spec_sky_light_at(q),
            forall|q: BlockPosition|
                in_chunk_bounds(q) ==> final(self).spec_block_light_at(q) == old(
                    self,
                ).spec_block_light_at(q),
            forall|z: int|
                0 <= z < CHUNK_DEPTH ==> final(self).spec_subchunk_present(z) == old(
                    self,
                ).spec_subchunk_present(z),
            final(self).spec_is_empty() == old(self).spec_is_empty(),
    {
        let index: usize = Self::subchunk_index(pos.z);
        let sub_pos: BlockPosition = Self::local_to_sub(pos);

        if !value && self.subchunks[index].is_none() {
            proof {
                lemma_chunk_routing_cases(*self, *self, pos, index as int);
            }
            return ;
        }

        let sub_opt: &mut Option<Subchunk> = &mut self.subchunks[index];
        if sub_opt.is_none() {
            *sub_opt = Some(Subchunk::new());
        }
        let mut became_empty = false;
        match sub_opt {
            Some(subchunk) => {
                subchunk.set_block_exposed(sub_pos, value);
                became_empty = subchunk.is_empty();
            },
            None => {
                proof {
                    assert(false);
                }
            },
        }
        if became_empty {
            *sub_opt = None;
        }
        proof {
            assert forall|i: int| 0 <= i < SUBCHUNKS_IN_CHUNK implies ((#[trigger] self.subchunks@[i]) is None) == (old(self).subchunks@[i] is None) by {}
            if old(self).spec_is_empty() {
                assert forall|i: int|
                    0 <= i < SUBCHUNKS_IN_CHUNK implies (#[trigger] self.subchunks@[i]) is None by {
                    assert(old(self).subchunks@[i] is None);
                }
            }
            if self.spec_is_empty() {
                assert forall|i: int|
                    0 <= i < SUBCHUNKS_IN_CHUNK implies (#[trigger] old(self).subchunks@[i]) is None by {
                    assert(self.subchunks@[i] is None);
                }
            }
            lemma_chunk_routing_cases(*old(self), *self, pos, index as int);
        }
    }

    /// Returns whether every subchunk is absent.
    pub fn is_empty(&self) -> (r: bool)
        requires
            self.wf(),
        ensures
            r == self.spec_is_empty(),
    {
        let mut i: usize = 0;
        let mut all_absent = true;
        while i < SUBCHUNKS_IN_CHUNK
            invariant
                i <= SUBCHUNKS_IN_CHUNK,
                self.wf(),
                all_absent == forall|t: int|
                    0 <= t < i ==> (#[trigger] self.subchunks@[t]) is None,
            decreases SUBCHUNKS_IN_CHUNK - i,
        {
            if self.subchunks[i].is_some() {
                all_absent = false;
            }
            i += 1;
        }
        all_absent
    }
}

/// After replacing the subchunk at the index covering `pos`, every channel
/// of every in-bounds position outside that subchunk reads as before, and
/// positions inside it read from the replaced subchunk at their translated
/// coordinates.
proof fn lemma_chunk_routing_cases(pre: Chunk, post: Chunk, pos: BlockPosition, index: int)
    requires
        pre.wf(),
        in_chunk_bounds(pos),
        index == spec_subchunk_index(pos.z as int),
        post.subchunks@.len() == pre.subchunks@.len(),
        forall|i: int|
            0 <= i < SUBCHUNKS_IN_CHUNK && i != index ==> post.subchunks@[i]
                == pre.subchunks@[i],
    ensures
        forall|q: BlockPosition|
            in_chunk_bounds(q) && spec_subchunk_index(q.z as int) != index ==> {
                &&& #[trigger] post.spec_block_id_at(q) == pre.spec_block_id_at(q)
                &&& post.spec_sky_light_at(q) == pre.spec_sky_light_at(q)
                &&& post.spec_block_light_at(q) == pre.spec_block_light_at(q)
                &&& post.spec_exposed_at(q) == pre.spec_exposed_at(q)
            },
        forall|q: BlockPosition|
            in_chunk_bounds(q) && q != pos && spec_subchunk_index(q.z as int) == index ==> (
            #[trigger] spec_sub_pos(q)) != spec_sub_pos(pos) && in_section_bounds(spec_sub_pos(q))
                && 0 <= spec_item_index(spec_sub_pos(q)) < crate::section::SECTION_VOLUME
                && spec_item_index(spec_sub_pos(q)) != spec_item_index(spec_sub_pos(pos)),
{
    assert forall|q: BlockPosition|
        in_chunk_bounds(q) && q != pos && spec_subchunk_index(q.z as int)
            == index implies (#[trigger] spec_sub_pos(q)) != spec_sub_pos(pos)
        && in_section_bounds(spec_sub_pos(q)) && 0 <= spec_item_index(spec_sub_pos(q))
        < crate::section::SECTION_VOLUME && spec_item_index(spec_sub_pos(q)) != spec_item_index(
        spec_sub_pos(pos),
    ) by {
        lemma_routing_in_bounds(q);
        lemma_routing_injective(pos, q);
        crate::section::lemma_item_index_bijective(spec_sub_pos(q), spec_sub_pos(pos));
    }
}

/// The flat iteration index of a local chunk position, row-major with x as
/// the most significant dimension.
pub open spec fn spec_chunk_flat_index(pos: BlockPosition) -> int {
    pos.x * (CHUNK_HEIGHT * CHUNK_DEPTH) + pos.y * CHUNK_DEPTH + pos.z
}

/// Whether `q` is one of the six axis-aligned neighbors of `pos`.
pub open spec fn spec_is_adjacent(q: BlockPosition, pos: BlockPosition) -> bool {
    ||| (q.x == pos.x + 1 && q.y == pos.y && q.z == pos.z)
    ||| (q.x == pos.x && q.y == pos.y + 1 && q.z == pos.z)
    ||| (q.x == pos.x && q.y == pos.y && q.z == pos.z + 1)
    ||| (q.x == pos.x - 1 && q.y == pos.y && q.z == pos.z)
    ||| (q.x == pos.x && q.y == pos.y - 1 && q.z == pos.z)
    ||| (q.x == pos.x && q.y == pos.y && q.z == pos.z - 1)
}

impl Chunk {
    /// Returns every local position of a chunk, in row-major order with x
    /// as the most significant dimension: position `p` sits at flat index
    /// `spec_chunk_flat_index(p)`.
    pub fn chunk_coords() -> (r: Vec<BlockPosition>)
        ensures
            r@.len() == CHUNK_VOLUME,
            forall|t: int| 0 <= t < CHUNK_VOLUME ==> in_chunk_bounds(#[trigger] r@[t]),
            forall|p: BlockPosition|
                in_chunk_bounds(p) ==> r@[#[trigger] spec_chunk_flat_index(p)] == p,
            forall|t: int| 0 <= t < CHUNK_VOLUME ==> spec_chunk_flat_index(#[trigger] r@[t]) == t,
    {
        let mut r: Vec<BlockPosition> = Vec::new();
        let mut t: usize = 0;
        while t < CHUNK_VOLUME
            invariant
                t <= CHUNK_VOLUME,
                r@.len() == t,
                forall|u: int|
                    0 <= u < t ==> {
                        let p = #[trigger] r@[u];
                        &&& in_chunk_bounds(p)
                        &&& p.x == u / (CHUNK_HEIGHT * CHUNK_DEPTH) as int
                        &&& p.y == (u / CHUNK_DEPTH as int) % CHUNK_HEIGHT as int
                        &&& p.z == u % CHUNK_DEPTH as int
                    },
            decreases CHUNK_VOLUME - t,
        {
            proof {
                assert(CHUNK_HEIGHT * CHUNK_DEPTH == 1024 && CHUNK_VOLUME == 16384);
            }
            let x: usize = t / (CHUNK_HEIGHT * CHUNK_DEPTH);
            let y: usize = (t / CHUNK_DEPTH) % CHUNK_HEIGHT;
            let z: usize = t % CHUNK_DEPTH;
            proof {
                vstd::arithmetic::div_mod::lemma_div_is_ordered(t as int, 16383, 1024);
            }
            r.push(BlockPosition { x: x as i32, y: y as i32, z: z as i32 });
            t += 1;
        }
        proof {
            assert forall|p: BlockPosition| in_chunk_bounds(p) implies r@[
            #[trigger] spec_chunk_flat_index(p)] == p by {
                lemma_chunk_flat_index_round_trip(p);
            }
            assert forall|t: int| 0 <= t < CHUNK_VOLUME implies spec_chunk_flat_index(
                #[trigger] r@[t],
            ) == t by {
                lemma_chunk_flat_decode(t);
            }
        }
        r
    }

    /// Returns the axis-aligned neighbors of a position whose vertical
    /// coordinate stays inside the chunk depth. Horizontal neighbors that
    /// cross into an adjacent chunk are intentionally included: the caller
    /// translates them to global coordinates and resolves them through the
    /// world.
    pub fn block_offsets(pos: BlockPosition) -> (r: Vec<BlockPosition>)
        requires
            i32::MIN < pos.x < i32::MAX,
            i32::MIN < pos.y < i32::MAX,
            i32::MIN < pos.z < i32::MAX,
        ensures
            forall|t: int|
                0 <= t < r@.len() ==> spec_is_adjacent(#[trigger] r@[t], pos) && 0 <= r@[t].z
                    < CHUNK_DEPTH,
            forall|q: BlockPosition|
                spec_is_adjacent(q, pos) && 0 <= q.z < CHUNK_DEPTH ==> r@.contains(q),
    {
        broadcast use vstd::seq_lib::lemma_seq_contains_after_push;

        let mut r: Vec<BlockPosition> = Vec::new();
        let z_ok: bool = 0 <= pos.z && pos.z < CHUNK_DEPTH as i32;
        if z_ok {
            r.push(BlockPosition { x: pos.x + 1, y: pos.y, z: pos.z });
            r.push(BlockPosition { x: pos.x, y: pos.y + 1, z: pos.z });
        }
        if 0 <= pos.z + 1 && pos.z + 1 < CHUNK_DEPTH as i32 {
            r.push(BlockPosition { x: pos.x, y: pos.y, z: pos.z + 1 });
        }
        if z_ok {
            r.push(BlockPosition { x: pos.x - 1, y: pos.y, z: pos.z });
            r.push(BlockPosition { x: pos.x, y: pos.y - 1, z: pos.z });
        }
        if 0 <= pos.z - 1 && pos.z - 1 < CHUNK_DEPTH as i32 {
            r.push(BlockPosition { x: pos.x, y: pos.y, z: pos.z - 1 });
        }
        r
    }
}

/// The flat iteration index of an in-bounds position lies inside the
/// volume.
pub proof fn lemma_chunk_coords_cover(p: BlockPosition)
    requires
        in_chunk_bounds(p),
    ensures
        0 <= spec_chunk_flat_index(p) < CHUNK_VOLUME,
{
    lemma_chunk_flat_index_round_trip(p);
}

/// Distinct in-bounds positions have distinct flat iteration indices.
pub proof fn lemma_chunk_flat_index_injective(p: BlockPosition, q: BlockPosition)
    requires
        in_chunk_bounds(p),
        in_chunk_bounds(q),
        spec_chunk_flat_index(p) == spec_chunk_flat_index(q),
    ensures
        p == q,
{
    lemma_chunk_flat_index_round_trip(p);
    lemma_chunk_flat_index_round_trip(q);
}

/// A position holding a non-air block always lies in an allocated
/// subchunk: only allocated subchunks store anything.
pub proof fn lemma_nonzero_block_implies_present(c: &Chunk, q: BlockPosition)
    requires
        in_chunk_bounds(q),
        c.spec_block_id_at(q) != 0,
    ensures
        c.spec_subchunk_present(q.z as int),
{
}

/// Recombining the decoded coordinates of a flat iteration index yields
/// the index again.
proof fn lemma_chunk_flat_decode(t: int)
    requires
        0 <= t < CHUNK_VOLUME,
    ensures
        (t / (CHUNK_HEIGHT * CHUNK_DEPTH) as int) * (CHUNK_HEIGHT * CHUNK_DEPTH) as int + ((t
            / CHUNK_DEPTH as int) % CHUNK_HEIGHT as int) * CHUNK_DEPTH as int + t
            % CHUNK_DEPTH as int == t,
{
    assert(CHUNK_HEIGHT * CHUNK_DEPTH == 1024 && CHUNK_VOLUME == 16384);
    vstd::arithmetic::div_mod::lemma_div_denominator(t, 64, 16);
    lemma_fundamental_div_mod(t, 64);
    lemma_fundamental_div_mod(t / 64, 16);
}

/// Decoding a flat iteration index back into coordinates returns the
/// position the index came from.
proof fn lemma_chunk_flat_index_round_trip(p: BlockPosition)
    requires
        in_chunk_bounds(p),
    ensures
        0 <= spec_chunk_flat_index(p) < CHUNK_VOLUME,
        spec_chunk_flat_index(p) / (CHUNK_HEIGHT * CHUNK_DEPTH) as int == p.x as int,
        (spec_chunk_flat_index(p) / CHUNK_DEPTH as int) % CHUNK_HEIGHT as int == p.y as int,
        spec_chunk_flat_index(p) % CHUNK_DEPTH as int == p.z as int,
{
    let t = spec_chunk_flat_index(p);
    assert(CHUNK_HEIGHT * CHUNK_DEPTH == 1024 && CHUNK_VOLUME == 16384);
    vstd::arithmetic::div_mod::lemma_fundamental_div_mod_converse(
        t,
        (CHUNK_HEIGHT * CHUNK_DEPTH) as int,
        p.x as int,
        p.y as int * CHUNK_DEPTH as int + p.z as int,
    );
    vstd::arithmetic::div_mod::lemma_fundamental_div_mod_converse(
        t,
        CHUNK_DEPTH as int,
        p.x as int * CHUNK_HEIGHT as int + p.y as int,
        p.z as int,
    );
    vstd::arithmetic::div_mod::lemma_fundamental_div_mod_converse(
        p.x as int * CHUNK_HEIGHT as int + p.y as int,
        CHUNK_HEIGHT as int,
        p.x as int,
        p.y as int,
    );
}

} // verus!
