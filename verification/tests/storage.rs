//! Tests for the storage hierarchy: palette sections, subchunks and
//! chunks.

use floralcraft::block::Block;
use floralcraft::chunk::{Chunk, CHUNK_DEPTH, CHUNK_HEIGHT, CHUNK_WIDTH};
use floralcraft::position::{BlockPosition, ChunkPosition};
use floralcraft::section::Section;
use floralcraft::subchunk::Subchunk;

#[test]
fn section_test_new_is_empty() {
    let section: Section = Section::new(2);
    assert!(section.is_empty());
}

#[test]
fn test_set_and_get_item() {
    let mut section: Section = Section::new(4);
    let pos_1: BlockPosition = BlockPosition::new(15, 1, 1);
    let pos_2: BlockPosition = BlockPosition::new(15, 1, 2);

    section.set_item(pos_1, 3);
    section.set_item(pos_1, 2);
    section.set_item(pos_2, 1);

    assert_eq!(section.item(pos_1), 2);
    assert_eq!(section.item(pos_2), 1);
}

#[test]
fn test_repack() {
    let mut section: Section = Section::new(1);
    let pos: BlockPosition = BlockPosition::new(3, 5, 3);

    section.set_item(pos, 30);
    assert_eq!(section.item(pos), 30);
}

#[test]
fn subchunk_test_new_is_empty() {
    let subchunk: Subchunk = Subchunk::new();
    assert!(subchunk.is_empty());
}

#[test]
fn subchunk_test_set_and_get_block() {
    let mut subchunk: Subchunk = Subchunk::new();
    let pos_1: BlockPosition = BlockPosition::new(15, 1, 1);
    let pos_2: BlockPosition = BlockPosition::new(3, 0, 2);

    subchunk.set_block(pos_1, Block::Dirt);
    subchunk.set_block(pos_1, Block::Grass);
    subchunk.set_block(pos_2, Block::Air);

    assert_eq!(subchunk.block(pos_1), Block::Grass);
    assert_eq!(subchunk.block(pos_2), Block::Air);
}

#[test]
fn chunk_test_new_is_empty() {
    let pos: ChunkPosition = ChunkPosition::new(0, 0);
    let chunk: Chunk = Chunk::new(pos);
    assert!(chunk.is_empty());
}

#[test]
fn chunk_test_set_and_get_block() {
    let chunk_pos: ChunkPosition = ChunkPosition::new(0, 0);
    let mut chunk: Chunk = Chunk::new(chunk_pos);
    let pos_1: BlockPosition = BlockPosition::new(15, 1, 21);
    let pos_2: BlockPosition = BlockPosition::new(3, 0, 2);

    chunk.set_block(pos_1, Block::Dirt);
    chunk.set_block(pos_1, Block::Grass);
    chunk.set_block(pos_2, Block::Air);

    assert_eq!(chunk.block(pos_1), Block::Grass);
    assert_eq!(chunk.block(pos_2), Block::Air);
}

#[test]
fn section_round_trip_every_position() {
    let mut section: Section = Section::new(4);
    for x in 0..16 {
        for y in 0..16 {
            for z in 0..16 {
                let v: u64 = ((x * 7 + y * 3 + z) % 11) as u64;
                section.set_item(BlockPosition::new(x, y, z), v);
            }
        }
    }
    for x in 0..16 {
        for y in 0..16 {
            for z in 0..16 {
                let v: u64 = ((x * 7 + y * 3 + z) % 11) as u64;
                assert_eq!(section.item(BlockPosition::new(x, y, z)), v);
            }
        }
    }
}

#[test]
fn section_repack_preserves_previous_values() {
    // one bit of index width forces several repacks as distinct values
    // arrive; every previously written value must survive each of them
    let mut section: Section = Section::new(1);
    let values: [u64; 40] = {
        let mut v: [u64; 40] = [0; 40];
        let mut i: usize = 0;
        while i < 40 {
            v[i] = (i as u64) * 13 + 1;
            i += 1;
        }
        v
    };
    for (i, v) in values.iter().enumerate() {
        let pos = BlockPosition::new((i % 16) as i32, (i / 16) as i32, 9);
        section.set_item(pos, *v);
        for (j, w) in values.iter().take(i + 1).enumerate() {
            let q = BlockPosition::new((j % 16) as i32, (j / 16) as i32, 9);
            assert_eq!(section.item(q), *w);
        }
    }
}

#[test]
fn section_is_empty_semantics() {
    // empty on creation, non-empty after the first non-zero write, and
    // still non-empty after writing the default back: palette entries are
    // never removed
    let mut section: Section = Section::new(4);
    assert!(section.is_empty());

    let pos = BlockPosition::new(0, 0, 0);
    section.set_item(pos, 0);
    assert!(section.is_empty());

    section.set_item(pos, 5);
    assert!(!section.is_empty());

    section.set_item(pos, 0);
    assert!(!section.is_empty());
    assert_eq!(section.item(pos), 0);
}

#[test]
fn subchunk_light_channels_round_trip() {
    let mut subchunk: Subchunk = Subchunk::new();
    let pos = BlockPosition::new(4, 4, 4);

    subchunk.set_sky_light(pos, 13);
    subchunk.set_block_light(pos, 7);
    assert_eq!(subchunk.sky_light(pos), 13);
    assert_eq!(subchunk.block_light(pos), 7);
    assert_eq!(subchunk.sky_light(BlockPosition::new(4, 4, 5)), 0);

    subchunk.set_block(pos, Block::Stone);
    subchunk.set_block_exposed(pos, true);
    assert!(subchunk.block_exposed(pos));
    subchunk.set_block_exposed(pos, false);
    assert!(!subchunk.block_exposed(pos));
}

#[test]
fn chunk_light_needs_an_allocated_subchunk() {
    let mut chunk: Chunk = Chunk::new(ChunkPosition::new(0, 0));
    let pos = BlockPosition::new(2, 2, 2);

    // a light write into an all-air slab allocates nothing and is dropped:
    // the slab keeps costing nothing
    chunk.set_sky_light(pos, 9);
    assert_eq!(chunk.sky_light(pos), 0);
    assert!(chunk.is_empty());

    // once the slab holds a block, light lands and reads back
    chunk.set_block(pos, Block::Stone);
    chunk.set_sky_light(pos, 9);
    chunk.set_block_light(pos, 4);
    assert_eq!(chunk.sky_light(pos), 9);
    assert_eq!(chunk.block_light(pos), 4);
    assert_eq!(chunk.sky_light(BlockPosition::new(2, 2, 3)), 0);
}

#[test]
fn chunk_routes_across_subchunk_boundaries() {
    let mut chunk: Chunk = Chunk::new(ChunkPosition::new(2, -3));
    // one write on each side of every subchunk boundary
    for z in [0, 15, 16, 31, 32, 47, 48, 63] {
        chunk.set_block(BlockPosition::new(1, 2, z), Block::Stone);
    }
    for z in 0..(CHUNK_DEPTH as i32) {
        let expected = match z {
            0 | 15 | 16 | 31 | 32 | 47 | 48 | 63 => Block::Stone,
            _ => Block::Air,
        };
        assert_eq!(chunk.block(BlockPosition::new(1, 2, z)), expected);
    }
}

#[test]
fn chunk_coords_covers_the_whole_volume() {
    let coords = Chunk::chunk_coords();
    assert_eq!(coords.len(), CHUNK_WIDTH * CHUNK_HEIGHT * CHUNK_DEPTH);
    assert_eq!(coords[0], BlockPosition::new(0, 0, 0));
    assert_eq!(coords[1], BlockPosition::new(0, 0, 1));
    assert_eq!(coords[64], BlockPosition::new(0, 1, 0));
    assert_eq!(coords[1024], BlockPosition::new(1, 0, 0));
    assert_eq!(
        coords[coords.len() - 1],
        BlockPosition::new(15, 15, (CHUNK_DEPTH - 1) as i32)
    );
}

#[test]
fn block_offsets_filters_vertical_neighbors() {
    let inside = Chunk::block_offsets(BlockPosition::new(5, 5, 5));
    assert_eq!(inside.len(), 6);

    let floor = Chunk::block_offsets(BlockPosition::new(5, 5, 0));
    assert_eq!(floor.len(), 5);
    assert!(!floor.contains(&BlockPosition::new(5, 5, -1)));

    let top = Chunk::block_offsets(BlockPosition::new(5, 5, (CHUNK_DEPTH - 1) as i32));
    assert_eq!(top.len(), 5);
    // horizontal neighbors crossing into the next chunk stay included
    let edge = Chunk::block_offsets(BlockPosition::new(15, 0, 5));
    assert!(edge.contains(&BlockPosition::new(16, 0, 5)));
    assert!(edge.contains(&BlockPosition::new(15, -1, 5)));
}
