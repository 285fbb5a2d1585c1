//! One vertical slab of a chunk, holding up to four independent channel
//! sections: block type, sky light, block light and exposure.
//!
//! Each channel section is allocated lazily on the first non-default write
//! and freed again if it ever reverts to the empty state, so a slab of pure
//! air costs no storage at all. An absent section reads as all-default.

use vstd::prelude::*;

use crate::block::{spec_block_id, spec_block_of_id, Block};
use crate::position::BlockPosition;
use crate::section::{
    in_section_bounds, lemma_empty_section_reads_zero, lemma_section_view_len, spec_item_index,
    Section, SECTION_VOLUME,
};

verus! {

broadcast use lemma_section_view_len;

/// Width of a subchunk in voxels along the x axis.
pub const SUBCHUNK_WIDTH: usize = 16;

/// Height of a subchunk in voxels along the y axis.
pub const SUBCHUNK_HEIGHT: usize = 16;

/// Depth of a subchunk in voxels along the z axis.
pub const SUBCHUNK_DEPTH: usize = 16;

/// Number of bits per item a fresh channel section starts with.
const INITIAL_BITS_PER_ITEM: u8 = 4;

/// What one channel of a subchunk stores for every voxel: the section's
/// values if the section is allocated, all zero if it is absent.
pub open spec fn spec_channel_view(channel: Option<Section>) -> Seq<u64> {
    match channel {
        Some(section) => section@,
        None => Seq::new(SECTION_VOLUME as nat, |k: int| 0u64),
    }
}

/// A channel is well formed when its section, if allocated, is well formed
/// and not empty: an empty section is always freed back to `None`.
pub open spec fn spec_channel_wf(channel: Option<Section>) -> bool {
    match channel {
        Some(section) => section.wf() && !section.spec_is_empty(),
        None => true,
    }
}

/// Reads one channel of a subchunk at a position: the stored value, or the
/// default zero when the channel has no section.
fn channel_get(channel: &Option<Section>, pos: BlockPosition) -> (r: u64)
    requires
        spec_channel_wf(*channel),
        in_section_bounds(pos),
    ensures
        r == spec_channel_view(*channel)[spec_item_index(pos)],
{
    match channel {
        Some(section) => section.item(pos),
        None => 0,
    }
}

/// Writes one channel of a subchunk at a position, allocating the section
/// on the first non-default write and freeing it if it reverts to empty.
fn channel_set(channel: &mut Option<Section>, pos: BlockPosition, value: u64)
    requires
        spec_channel_wf(*old(channel)),
        in_section_bounds(pos),
    ensures
        spec_channel_wf(*final(channel)),
        spec_channel_view(*final(channel)) == spec_channel_view(*old(channel)).update(
            spec_item_index(pos),
            value,
        ),
        (*final(channel)) is None <==> ((*old(channel)) is None && value == 0),
{
    let ghost old_view = spec_channel_view(*old(channel));

    if value == 0 && channel.is_none() {
        proof {
            assert(old_view =~= old_view.update(spec_item_index(pos), value));
        }
        return ;
    }
    if channel.is_none() {
        let section = Section::new(INITIAL_BITS_PER_ITEM);
        proof {
            assert(section@ =~= old_view);
        }
        *channel = Some(section);
    }
    let mut became_empty = false;
    match channel {
        Some(section) => {
            section.set_item(pos, value);
            became_empty = section.is_empty();
        },
        None => {
            proof {
                assert(false);
            }
        },
    }
    if became_empty {
        match channel {
            Some(section) => {
                proof {
                    lemma_empty_section_reads_zero(section);
                    assert(section@ =~= Seq::new(SECTION_VOLUME as nat, |k: int| 0u64));
                }
            },
            None => {
                proof {
                    assert(false);
                }
            },
        }
        *channel = None;
    }
}

/// One vertical slab of a chunk: four independently optional channel
/// sections over the same fixed volume.
pub struct Subchunk {
    blocks: Option<Section>,
    sky_light: Option<Section>,
    block_light: Option<Section>,
    exposed_blocks: Option<Section>,
}

impl Subchunk {
    /// Every allocated channel section is well formed and non-empty, and
    /// the two light channels only ever hold values that fit in a byte.
    pub closed spec fn wf(&self) -> bool {
        &&& spec_channel_wf(self.blocks)
        &&& spec_channel_wf(self.sky_light)
        &&& spec_channel_wf(self.block_light)
        &&& spec_channel_wf(self.exposed_blocks)
        &&& forall|k: int|
            0 <= k < SECTION_VOLUME ==> #[trigger] spec_channel_view(self.sky_light)[k]
                <= u8::MAX
        &&& forall|k: int|
            0 <= k < SECTION_VOLUME ==> #[trigger] spec_channel_view(self.block_light)[k]
                <= u8::MAX
    }

    /// The block identifier stored for every voxel of the slab.
    pub closed spec fn spec_blocks(&self) -> Seq<u64> {
        spec_channel_view(self.blocks)
    }

    /// The sky light level stored for every voxel of the slab.
    pub closed spec fn spec_sky_light(&self) -> Seq<u64> {
        spec_channel_view(self.sky_light)
    }

    /// The block light level stored for every voxel of the slab.
    pub closed spec fn spec_block_light(&self) -> Seq<u64> {
        spec_channel_view(self.block_light)
    }

    /// The exposure flag stored for every voxel of the slab, as a raw
    /// stored value: zero means not exposed.
    pub closed spec fn spec_exposed(&self) -> Seq<u64> {
        spec_channel_view(self.exposed_blocks)
    }

    /// A subchunk is empty when its block channel has no section: the whole
    /// slab is air.
    pub closed spec fn spec_is_empty(&self) -> bool {
        self.blocks is None
    }

    /// Create a new zeroed out subchunk.
    pub fn new() -> (r: Self)
        ensures
            r.wf(),
            r.spec_is_empty(),
            r.spec_blocks() =~= Seq::new(SECTION_VOLUME as nat, |k: int| 0u64),
            r.spec_sky_light() =~= Seq::new(SECTION_VOLUME as nat, |k: int| 0u64),
            r.spec_block_light() =~= Seq::new(SECTION_VOLUME as nat, |k: int| 0u64),
            r.spec_exposed() =~= Seq::new(SECTION_VOLUME as nat, |k: int| 0u64),
    {
        Subchunk { blocks: None, sky_light: None, block_light: None, exposed_blocks: None }
    }

    /// Gets the block at a position; an absent block section reads as air.
    pub fn block(&self, pos: BlockPosition) -> (r: Block)
        requires
            self.wf(),
            in_section_bounds(pos),
        ensures
            r == spec_block_of_id(self.spec_blocks()[spec_item_index(pos)]),
    {
        Block::from_id(channel_get(&self.blocks, pos))
    }

    /// Gets the sky light level at a position.
    pub fn sky_light(&self, pos: BlockPosition) -> (r: u8)
        requires
            self.wf(),
            in_section_bounds(pos),
        ensures
            r == self.spec_sky_light()[spec_item_index(pos)],
    {
        channel_get(&self.sky_light, pos) as u8
    }

    /// Gets the block light level at a position.
    pub fn block_light(&self, pos: BlockPosition) -> (r: u8)
        requires
            self.wf(),
            in_section_bounds(pos),
        ensures
            r == self.spec_block_light()[spec_item_index(pos)],
    {
        channel_get(&self.block_light, pos) as u8
    }

    /// Gets whether the block at a position is exposed.
    pub fn block_exposed(&self, pos: BlockPosition) -> (r: bool)
        requires
            self.wf(),
            in_section_bounds(pos),
        ensures
            r == (self.spec_exposed()[spec_item_index(pos)] != 0),
    {
        channel_get(&self.exposed_blocks, pos) != 0
    }

    /// Sets the block at a position, allocating the block section on the
    /// first non-air write and freeing it if the slab reverts to all-air.
    pub fn set_block(&mut self, pos: BlockPosition, value: Block)
        requires
            old(self).wf(),
            in_section_bounds(pos),
        ensures
            final(self).wf(),
            final(self).spec_blocks() == old(self).spec_blocks().update(
                spec_item_index(pos),
                spec_block_id(value),
            ),
            final(self).spec_sky_light() == old(self).spec_sky_light(),
            final(self).spec_block_light() == old(self).spec_block_light(),
            final(self).spec_exposed() == old(self).spec_exposed(),
            final(self).spec_is_empty() <==> (old(self).spec_is_empty() && spec_block_id(value)
                == 0),
    {
        channel_set(&mut self.blocks, pos, value.to_id());
    }

    /// Sets the sky light level at a position.
    pub fn set_sky_light(&mut self, pos: BlockPosition, value: u8)
        requires
            old(self).wf(),
            in_section_bounds(pos),
        ensures
            final(self).wf(),
            final(self).spec_sky_light() == old(self).spec_sky_light().update(
                spec_item_index(pos),
                value as u64,
            ),
            final(self).spec_blocks() == old(self).spec_blocks(),
            final(self).spec_block_light() == old(self).spec_block_light(),
            final(self).spec_exposed() == old(self).spec_exposed(),
            final(self).spec_is_empty() == old(self).spec_is_empty(),
    {
        channel_set(&mut self.sky_light, pos, value as u64);
    }

    /// Sets the block light level at a position.
    pub fn set_block_light(&mut self, pos: BlockPosition, value: u8)
        requires
            old(self).wf(),
            in_section_bounds(pos),
        ensures
            final(self).wf(),
            final(self).spec_block_light() == old(self).spec_block_light().update(
                spec_item_index(pos),
                value as u64,
            ),
            final(self).spec_blocks() == old(self).spec_blocks(),
            final(self).spec_sky_light() == old(self).spec_sky_light(),
            final(self).spec_exposed() == old(self).spec_exposed(),
            final(self).spec_is_empty() == old(self).spec_is_empty(),
    {
        channel_set(&mut self.block_light, pos, value as u64);
    }

    /// Sets whether the block at a position is exposed.
    pub fn set_block_exposed(&mut self, pos: BlockPosition, value: bool)
        requires
            old(self).wf(),
            in_section_bounds(pos),
        ensures
            final(self).wf(),
            final(self).spec_exposed() == old(self).spec_exposed().update(
                spec_item_index(pos),
                if value {
                    1u64
                } else {
                    0u64
                },
            ),
            final(self).spec_blocks() == old(self).spec_blocks(),
            final(self).spec_sky_light() == old(self).spec_sky_light(),
            final(self).spec_block_light() == old(self).spec_block_light(),
            final(self).spec_is_empty() == old(self).spec_is_empty(),
    {
        channel_set(&mut self.exposed_blocks, pos, if value { 1 } else { 0 });
    }

    /// Returns whether the whole slab is air: the block channel has no
    /// section.
    pub fn is_empty(&self) -> (r: bool)
        ensures
            r == self.spec_is_empty(),
    {
        self.blocks.is_none()
    }
}

/// A subchunk's block channel always covers exactly the section volume.
pub broadcast proof fn lemma_subchunk_blocks_len(s: &Subchunk)
    ensures
        (#[trigger] s.spec_blocks()).len() == SECTION_VOLUME,
{
}

/// A subchunk's sky light channel always covers exactly the section volume.
pub broadcast proof fn lemma_subchunk_sky_light_len(s: &Subchunk)
    ensures
        (#[trigger] s.spec_sky_light()).len() == SECTION_VOLUME,
{
}

/// A subchunk's block light channel always covers exactly the section
/// volume.
pub broadcast proof fn lemma_subchunk_block_light_len(s: &Subchunk)
    ensures
        (#[trigger] s.spec_block_light()).len() == SECTION_VOLUME,
{
}

/// A subchunk's exposure channel always covers exactly the section volume.
pub broadcast proof fn lemma_subchunk_exposed_len(s: &Subchunk)
    ensures
        (#[trigger] s.spec_exposed()).len() == SECTION_VOLUME,
{
}

/// The channel views of a subchunk always cover exactly the section
/// volume.
pub broadcast group group_subchunk_view_lens {
    lemma_subchunk_blocks_len,
    lemma_subchunk_sky_light_len,
    lemma_subchunk_block_light_len,
    lemma_subchunk_exposed_len,
}

} // verus!
