//! Tests for the block generators, the dictionary and the generation
//! pipeline's scheduling bookkeeping.

use floralcraft::block::{Block, BlockDefinition};
use floralcraft::chunk::{Chunk, CHUNK_DEPTH};
use floralcraft::generator::{
    generate_chunk, normal_surface_block, FlatGenerator, Generator, SkyblockGenerator,
};
use floralcraft::pipeline::GenerationQueue;
use floralcraft::position::{BlockPosition, ChunkPosition};
use floralcraft::world::World;

#[test]
fn block_from_string_maps_names() {
    assert_eq!(Block::from_string("air"), Block::Air);
    assert_eq!(Block::from_string("grass"), Block::Grass);
    assert_eq!(Block::from_string("dirt"), Block::Dirt);
    assert_eq!(Block::from_string("stone"), Block::Stone);
    assert_eq!(Block::from_string("bedrock"), Block::Bedrock);
    assert_eq!(Block::from_string("air?!"), Block::Missing);
    assert_eq!(Block::from_string(""), Block::Missing);
}

#[test]
fn dictionary_flags() {
    let air: BlockDefinition = Block::Air.definition();
    assert!(!air.is_visible());
    assert!(!air.is_collidable());
    assert!(!air.is_hoverable());
    assert!(air.is_replaceable());
    assert!(air.is_transparent());
    assert_eq!(air.get_name(), Block::Air);

    let grass: BlockDefinition = Block::Grass.definition();
    assert!(grass.is_visible());
    assert!(grass.is_breakable());
    assert!(grass.is_hoverable());
    assert!(!grass.is_replaceable());

    let bedrock: BlockDefinition = Block::Bedrock.definition();
    assert!(!bedrock.is_breakable());
    assert!(bedrock.is_collidable());
    assert_eq!(bedrock.get_name(), Block::Bedrock);

    // an unknown kind reads as the default entry
    assert_eq!(Block::Missing.definition(), Block::Air.definition());
}

#[test]
fn flat_chunk_layers() {
    let chunk: Chunk = generate_chunk(&Generator::Flat(FlatGenerator), ChunkPosition::new(0, 0));
    for x in 0..16 {
        for y in 0..16 {
            for z in 0..(CHUNK_DEPTH as i32) {
                let block = chunk.block(BlockPosition::new(x, y, z));
                let expected = match z {
                    0 => Block::Bedrock,
                    1..=3 => Block::Dirt,
                    4 => Block::Grass,
                    _ => Block::Air,
                };
                assert_eq!(block, expected);
            }
        }
    }
    // the grass surface is exposed, the dirt below it is not
    assert!(chunk.block_exposed(BlockPosition::new(8, 8, 4)));
    assert!(!chunk.block_exposed(BlockPosition::new(8, 8, 3)));
    // the chunk-edge column sees no neighbor beyond the chunk, so its side
    // faces do not count; the top face still exposes it
    assert!(chunk.block_exposed(BlockPosition::new(0, 0, 4)));
}

#[test]
fn flat_generator_ignores_horizontal_position() {
    let g = FlatGenerator;
    assert_eq!(g.choose_block(BlockPosition::new(-1000, 1000, 0)), Block::Bedrock);
    assert_eq!(g.choose_block(BlockPosition::new(3, -7, 2)), Block::Dirt);
    assert_eq!(g.choose_block(BlockPosition::new(0, 0, 4)), Block::Grass);
    assert_eq!(g.choose_block(BlockPosition::new(0, 0, 5)), Block::Air);
}

#[test]
fn skyblock_platform_is_one_footprint_with_a_missing_quadrant() {
    let g = SkyblockGenerator;
    // inside the kept part of the footprint: the flat column rule
    assert_eq!(g.choose_block(BlockPosition::new(8, 0, 0)), Block::Bedrock);
    assert_eq!(g.choose_block(BlockPosition::new(8, 8, 4)), Block::Grass);
    assert_eq!(g.choose_block(BlockPosition::new(0, 0, 2)), Block::Dirt);
    // the quadrant with low x and high y is cut away
    assert_eq!(g.choose_block(BlockPosition::new(0, 15, 0)), Block::Air);
    assert_eq!(g.choose_block(BlockPosition::new(7, 8, 4)), Block::Air);
    // outside the origin footprint everything is air
    assert_eq!(g.choose_block(BlockPosition::new(16, 0, 0)), Block::Air);
    assert_eq!(g.choose_block(BlockPosition::new(-1, 5, 0)), Block::Air);
}

#[test]
fn normal_surface_rule() {
    // the world floor always wins, even inside a cave
    assert_eq!(normal_surface_block(0, 20, true, 3, 40), Block::Bedrock);
    // carved cave voxels are air regardless of the height decision
    assert_eq!(normal_surface_block(10, 20, true, 3, 40), Block::Air);
    // above the column surface: air; at it: grass; the dirt band below
    assert_eq!(normal_surface_block(21, 20, false, 3, 40), Block::Air);
    assert_eq!(normal_surface_block(20, 20, false, 3, 40), Block::Grass);
    assert_eq!(normal_surface_block(19, 20, false, 3, 40), Block::Dirt);
    assert_eq!(normal_surface_block(17, 20, false, 3, 40), Block::Dirt);
    assert_eq!(normal_surface_block(16, 20, false, 3, 40), Block::Stone);
    // the short-circuit above the configured highest surface
    assert_eq!(normal_surface_block(41, 60, false, 3, 40), Block::Air);
}

#[test]
fn scheduling_skips_present_and_in_flight_positions() {
    let mut world: World = World::new();
    world.set_chunk(Chunk::new(ChunkPosition::new(0, 0)));

    let mut queue: GenerationQueue = GenerationQueue::new();
    queue.choose_chunks_to_generate(&world, ChunkPosition::new(0, 0), 1);

    // the present chunk was filtered out of the nine positions
    let first_batch = queue.take_tasks(100);
    assert_eq!(first_batch.len(), 8);
    assert!(!first_batch.contains(&ChunkPosition::new(0, 0)));

    // re-requesting while everything is in flight queues nothing
    queue.choose_chunks_to_generate(&world, ChunkPosition::new(0, 0), 1);
    assert_eq!(queue.take_tasks(100).len(), 0);
}

#[test]
fn take_tasks_bounds_work_per_tick() {
    let world: World = World::new();
    let mut queue: GenerationQueue = GenerationQueue::new();
    queue.choose_chunks_to_generate(&world, ChunkPosition::new(0, 0), 2);

    let batch = queue.take_tasks(5);
    assert_eq!(batch.len(), 5);
    let rest = queue.take_tasks(100);
    assert_eq!(rest.len(), 20);
    for pos in &batch {
        assert!(!rest.contains(pos));
    }
}

#[test]
fn complete_merges_once_and_discards_the_race_loser() {
    let mut world: World = World::new();
    let mut queue: GenerationQueue = GenerationQueue::new();
    queue.choose_chunks_to_generate(&world, ChunkPosition::new(0, 0), 0);
    let batch = queue.take_tasks(10);
    assert_eq!(batch, vec![ChunkPosition::new(0, 0)]);
    assert!(queue.in_flight_contains(ChunkPosition::new(0, 0)));

    let chunk = generate_chunk(&Generator::Flat(FlatGenerator), ChunkPosition::new(0, 0));
    assert!(queue.complete(&mut world, chunk));
    assert!(!queue.in_flight_contains(ChunkPosition::new(0, 0)));
    assert_eq!(world.block(BlockPosition::new(0, 0, 0)), Some(Block::Bedrock));
    assert_eq!(world.consume_dirty_chunks().len(), 5);

    // a racing duplicate is discarded without touching the merged chunk
    let duplicate = generate_chunk(
        &Generator::Skyblock(SkyblockGenerator),
        ChunkPosition::new(0, 0),
    );
    assert!(!queue.complete(&mut world, duplicate));
    assert_eq!(world.block(BlockPosition::new(0, 15, 0)), Some(Block::Bedrock));
    assert!(world.consume_dirty_chunks().is_empty());
}

#[test]
fn released_positions_become_eligible_again() {
    let world: World = World::new();
    let mut queue: GenerationQueue = GenerationQueue::new();
    queue.choose_chunks_to_generate(&world, ChunkPosition::new(0, 0), 0);
    let batch = queue.take_tasks(1);
    assert_eq!(batch.len(), 1);

    // while in flight the position is never re-queued
    queue.choose_chunks_to_generate(&world, ChunkPosition::new(0, 0), 0);
    assert_eq!(queue.take_tasks(10).len(), 0);

    // a failed task releases its position for a later retry
    queue.release(ChunkPosition::new(0, 0));
    queue.choose_chunks_to_generate(&world, ChunkPosition::new(0, 0), 0);
    assert_eq!(queue.take_tasks(10), vec![ChunkPosition::new(0, 0)]);
}
