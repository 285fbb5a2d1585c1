//! Tests for the world: chunk lookup, coordinate conversions, dirty
//! tracking and the edit path.

use floralcraft::block::Block;
use floralcraft::chunk::Chunk;
use floralcraft::generator::{generate_chunk, FlatGenerator, Generator};
use floralcraft::interaction::{break_block, place_block, update_exposed_blocks};
use floralcraft::position::{BlockPosition, ChunkPosition, Conversion};
use floralcraft::world::World;

#[test]
fn ungenerated_chunk_reads_absent() {
    let mut world: World = World::new();
    // absence is surfaced as None, never as a default block value
    assert!(world.block(BlockPosition::new(0, -9999, 0)).is_none());
    assert!(world.block(BlockPosition::new(0, 0, 0)).is_none());
    assert!(world.block_exposed(BlockPosition::new(3, 3, 3)).is_none());
    assert!(world.chunk(ChunkPosition::new(0, 0)).is_none());
    assert!(world.set_block(BlockPosition::new(0, 0, 0), Block::Dirt).is_none());
}

#[test]
fn set_and_get_block_through_world() {
    let mut world: World = World::new();
    world.set_chunk(Chunk::new(ChunkPosition::new(0, 0)));
    world.set_chunk(Chunk::new(ChunkPosition::new(-1, -1)));

    let pos = BlockPosition::new(3, 4, 5);
    assert!(world.set_block(pos, Block::Stone).is_some());
    assert_eq!(world.block(pos), Some(Block::Stone));

    // negative coordinates floor into the chunk at (-1, -1)
    let neg = BlockPosition::new(-1, -16, 7);
    assert!(world.set_block(neg, Block::Grass).is_some());
    assert_eq!(world.block(neg), Some(Block::Grass));
    assert_eq!(world.block(BlockPosition::new(-17, -16, 7)), None);
}

#[test]
fn conversion_round_trip() {
    let samples = [
        BlockPosition::new(0, 0, 0),
        BlockPosition::new(5, 31, 2),
        BlockPosition::new(-1, -16, 63),
        BlockPosition::new(-17, 16, 9),
        BlockPosition::new(12345, -9876, 31),
    ];
    for pos in samples {
        let chunk_pos = Conversion::block_to_chunk_pos(pos);
        let local = Conversion::global_to_local_pos(pos);
        let corner = Conversion::chunk_to_block_pos(chunk_pos);
        assert_eq!(corner.x + local.x, pos.x);
        assert_eq!(corner.y + local.y, pos.y);
        assert_eq!(corner.z + local.z, pos.z);
        assert!(local.x >= 0 && local.x < 16);
        assert!(local.y >= 0 && local.y < 16);
    }

    // the example from the floor-division rule: global x = -1 lies in
    // chunk x = -1 at local x = 15
    assert_eq!(
        Conversion::block_to_chunk_pos(BlockPosition::new(-1, 0, 0)),
        ChunkPosition::new(-1, 0)
    );
    assert_eq!(
        Conversion::global_to_local_pos(BlockPosition::new(-1, 0, 0)),
        BlockPosition::new(15, 0, 0)
    );
}

#[test]
fn consume_dirty_chunks_drains() {
    let mut world: World = World::new();
    world.mark_chunks_dirty_with_adj(ChunkPosition::new(0, 0));

    let dirty = world.consume_dirty_chunks();
    assert!(!dirty.is_empty());
    assert_eq!(dirty.len(), 5);

    let dirty_again = world.consume_dirty_chunks();
    assert!(dirty_again.is_empty());
}

#[test]
fn marking_dirty_includes_orthogonal_neighbors() {
    let mut world: World = World::new();
    world.mark_chunks_dirty_with_adj(ChunkPosition::new(2, 3));
    world.mark_chunks_dirty_with_adj(ChunkPosition::new(2, 3));

    let dirty = world.consume_dirty_chunks();
    assert_eq!(dirty.len(), 5);
    for expected in [(2, 3), (1, 3), (3, 3), (2, 2), (2, 4)] {
        assert!(dirty.contains(&ChunkPosition::new(expected.0, expected.1)));
    }
}

#[test]
fn set_block_marks_dirty_with_neighbors() {
    let mut world: World = World::new();
    world.set_chunk(Chunk::new(ChunkPosition::new(0, 0)));
    world.consume_dirty_chunks();

    world.set_block(BlockPosition::new(1, 1, 1), Block::Dirt).unwrap();
    let dirty = world.consume_dirty_chunks();
    assert_eq!(dirty.len(), 5);
    assert!(dirty.contains(&ChunkPosition::new(0, 0)));
    assert!(dirty.contains(&ChunkPosition::new(-1, 0)));
}

#[test]
fn positions_in_square_radius() {
    let zero = World::positions_in_square(ChunkPosition::new(7, -2), 0);
    assert_eq!(zero, vec![ChunkPosition::new(7, -2)]);

    let one = World::positions_in_square(ChunkPosition::new(0, 0), 1);
    assert_eq!(one.len(), 9);
    for x in -1..=1 {
        for y in -1..=1 {
            assert!(one.contains(&ChunkPosition::new(x, y)));
        }
    }
}

#[test]
fn chunks_in_square_reports_loaded_positions() {
    let mut world: World = World::new();
    world.set_chunk(Chunk::new(ChunkPosition::new(0, 0)));
    world.set_chunk(Chunk::new(ChunkPosition::new(1, 0)));
    world.set_chunk(Chunk::new(ChunkPosition::new(5, 5)));

    let found = world.chunks_in_square(ChunkPosition::new(0, 0), 1);
    assert_eq!(found.len(), 2);
    assert!(found.contains(&ChunkPosition::new(0, 0)));
    assert!(found.contains(&ChunkPosition::new(1, 0)));
}

#[test]
fn chunk_render_data_lists_exposed_voxels() {
    let mut world: World = World::new();
    world.set_chunk(generate_chunk(
        &Generator::Flat(FlatGenerator),
        ChunkPosition::new(1, 0),
    ));

    assert!(world.chunk_render_data(ChunkPosition::new(0, 0)).is_none());

    let data = world.chunk_render_data(ChunkPosition::new(1, 0)).unwrap();
    // in a freshly generated flat chunk only the 16 x 16 grass surface is
    // exposed, and its positions are global
    assert_eq!(data.len(), 256);
    assert!(data.contains(&(Block::Grass, BlockPosition::new(16, 0, 4))));
    assert!(data.contains(&(Block::Grass, BlockPosition::new(31, 15, 4))));
    for (block, pos) in &data {
        assert_eq!(*block, Block::Grass);
        assert_eq!(pos.z, 4);
    }
}

#[test]
fn break_breakable_block_updates_exposure() {
    let mut world: World = World::new();
    let chunk = generate_chunk(&Generator::Flat(FlatGenerator), ChunkPosition::new(0, 0));
    world.set_chunk(chunk);
    world.consume_dirty_chunks();

    let grass = BlockPosition::new(5, 5, 4);
    let dirt_below = BlockPosition::new(5, 5, 3);
    assert_eq!(world.block(grass), Some(Block::Grass));
    assert_eq!(world.block_exposed(grass), Some(true));
    // the dirt below the unbroken surface is buried
    assert_eq!(world.block_exposed(dirt_below), Some(false));

    assert!(break_block(&mut world, grass));

    // the broken block reads as the default block again
    assert_eq!(world.block(grass), Some(Block::Air));
    // and its exposed neighbors' flags were recomputed in the same call
    assert_eq!(world.block_exposed(dirt_below), Some(true));
    assert_eq!(world.block_exposed(grass), Some(false));

    // the edit marked the chunk and its neighbors dirty
    let dirty = world.consume_dirty_chunks();
    assert!(dirty.contains(&ChunkPosition::new(0, 0)));
    assert_eq!(dirty.len(), 5);
}

#[test]
fn exposure_rebuild_sees_across_chunk_boundaries() {
    let mut world: World = World::new();
    world.set_chunk(generate_chunk(
        &Generator::Flat(FlatGenerator),
        ChunkPosition::new(0, 0),
    ));

    // at generation time only chunk-local neighbors were consulted, so a
    // buried boundary block shows no side exposure yet
    let boundary_dirt = BlockPosition::new(15, 8, 3);
    assert_eq!(world.block_exposed(boundary_dirt), Some(false));

    // an all-air chunk appears next door; rebuilding the first chunk's
    // exposure through the world now sees the open face
    world.set_chunk(Chunk::new(ChunkPosition::new(1, 0)));
    assert!(update_exposed_blocks(&mut world, ChunkPosition::new(0, 0)).is_some());
    assert_eq!(world.block_exposed(boundary_dirt), Some(true));
    // an interior buried block stays unexposed
    assert_eq!(world.block_exposed(BlockPosition::new(8, 8, 3)), Some(false));
    // rebuilding an ungenerated position is refused
    assert!(update_exposed_blocks(&mut world, ChunkPosition::new(9, 9)).is_none());
}

#[test]
fn break_block_refuses_unbreakable_and_absent() {
    let mut world: World = World::new();
    let chunk = generate_chunk(&Generator::Flat(FlatGenerator), ChunkPosition::new(0, 0));
    world.set_chunk(chunk);
    world.consume_dirty_chunks();

    // bedrock is not breakable
    assert!(!break_block(&mut world, BlockPosition::new(0, 0, 0)));
    assert_eq!(world.block(BlockPosition::new(0, 0, 0)), Some(Block::Bedrock));
    // air is not breakable either
    assert!(!break_block(&mut world, BlockPosition::new(0, 0, 40)));
    // an ungenerated chunk refuses the edit
    assert!(!break_block(&mut world, BlockPosition::new(100, 100, 4)));
    assert!(world.consume_dirty_chunks().is_empty());
}

#[test]
fn place_block_replaces_replaceable() {
    let mut world: World = World::new();
    let chunk = generate_chunk(&Generator::Flat(FlatGenerator), ChunkPosition::new(0, 0));
    world.set_chunk(chunk);
    world.consume_dirty_chunks();

    let above_surface = BlockPosition::new(5, 5, 5);
    assert_eq!(world.block(above_surface), Some(Block::Air));
    assert!(place_block(&mut world, above_surface, Block::Dirt));
    assert_eq!(world.block(above_surface), Some(Block::Dirt));
    assert_eq!(world.block_exposed(above_surface), Some(true));

    // a grass block is not replaceable
    assert!(!place_block(&mut world, BlockPosition::new(6, 6, 4), Block::Dirt));
    assert_eq!(world.block(BlockPosition::new(6, 6, 4)), Some(Block::Grass));
}
