//! Edit-time interaction with the world: breaking and placing blocks, and
//! recomputing the exposure of the edited position and its neighbors in
//! the same call.
//!
//! The exposure rule is the same one used at generation time: a block is
//! exposed when it is visible and at least one axis neighbor is transparent
//! or invisible. At the world level a neighbor is resolved through the
//! chunk map; a neighbor in an ungenerated chunk does not count.

use vstd::prelude::*;

use crate::block::{spec_block_of_id, spec_definition, Block};
use crate::chunk::{
    in_chunk_bounds, lemma_nonzero_block_implies_present, spec_chunk_flat_index, spec_is_adjacent,
    Chunk, CHUNK_DEPTH, CHUNK_HEIGHT, CHUNK_VOLUME, CHUNK_WIDTH,
};
use crate::generator::{spec_global_pos, spec_sees_through};
use crate::position::{BlockPosition, ChunkPosition};
use crate::world::{
    in_world_depth, spec_adjacent_chunk, spec_chunk_pos_of, spec_local_pos_of, spec_same_chunks,
    World,
};

verus! {

/// The block stored at a global position of the world.
pub open spec fn spec_world_block(w: &World, q: BlockPosition) -> Block
    recommends
        w.spec_has_chunk(spec_chunk_pos_of(q)),
{
    spec_block_of_id(
        w.spec_chunk_at(spec_chunk_pos_of(q)).spec_block_id_at(spec_local_pos_of(q)),
    )
}

/// The exposure flag stored at a global position of the world.
pub open spec fn spec_world_exposed_at(w: &World, q: BlockPosition) -> bool
    recommends
        w.spec_has_chunk(spec_chunk_pos_of(q)),
{
    w.spec_chunk_at(spec_chunk_pos_of(q)).spec_exposed_at(spec_local_pos_of(q))
}

/// Whether the neighbor at `n` lets a face toward it show: its chunk is
/// loaded and its block is transparent or invisible. A neighbor in an
/// ungenerated chunk does not count toward exposure.
pub open spec fn spec_world_sees_through(w: &World, n: BlockPosition) -> bool {
    &&& in_world_depth(n)
    &&& w.spec_has_chunk(spec_chunk_pos_of(n))
    &&& spec_sees_through(spec_world_block(w, n))
}

/// The world-level exposure rule: the block is visible and at least one of
/// its axis neighbors, resolved through the world, sees through.
pub open spec fn spec_world_exposed(w: &World, q: BlockPosition) -> bool {
    &&& spec_definition(spec_world_block(w, q)).visible
    &&& exists|n: BlockPosition|
        #[trigger] spec_is_adjacent(n, q) && spec_world_sees_through(w, n)
}

/// Whether two worlds agree on everything but the exposure channel: the
/// same chunks are present, and each agrees on its position, allocated
/// subchunks, blocks and light levels.
pub open spec fn spec_preserves_terrain(a: &World, b: &World) -> bool {
    &&& forall|cq: ChunkPosition| #[trigger] a.spec_has_chunk(cq) == b.spec_has_chunk(cq)
    &&& forall|cq: ChunkPosition|
        a.spec_has_chunk(cq) ==> #[trigger] a.spec_chunk_at(cq).spec_pos()
            == b.spec_chunk_at(cq).spec_pos()
    &&& forall|cq: ChunkPosition, z: int|
        a.spec_has_chunk(cq) && 0 <= z < CHUNK_DEPTH ==> #[trigger] a.spec_chunk_at(
            cq,
        ).spec_subchunk_present(z) == b.spec_chunk_at(cq).spec_subchunk_present(z)
    &&& forall|cq: ChunkPosition, q: BlockPosition|
        a.spec_has_chunk(cq) && crate::chunk::in_chunk_bounds(q) ==> #[trigger] a.spec_chunk_at(
            cq,
        ).spec_block_id_at(q) == b.spec_chunk_at(cq).spec_block_id_at(q)
    &&& forall|cq: ChunkPosition, q: BlockPosition|
        a.spec_has_chunk(cq) && crate::chunk::in_chunk_bounds(q) ==> #[trigger] a.spec_chunk_at(
            cq,
        ).spec_sky_light_at(q) == b.spec_chunk_at(cq).spec_sky_light_at(q)
    &&& forall|cq: ChunkPosition, q: BlockPosition|
        a.spec_has_chunk(cq) && crate::chunk::in_chunk_bounds(q) ==> #[trigger] a.spec_chunk_at(
            cq,
        ).spec_block_light_at(q) == b.spec_chunk_at(cq).spec_block_light_at(q)
}

/// Agreement on terrain is transitive.
proof fn lemma_preserves_terrain_trans(a: &World, b: &World, c: &World)
    requires
        spec_preserves_terrain(a, b),
        spec_preserves_terrain(b, c),
    ensures
        spec_preserves_terrain(a, c),
{
}

/// Worlds that agree on terrain agree on the exposure rule at every
/// position.
proof fn lemma_same_terrain_same_rule(a: &World, b: &World, q: BlockPosition)
    requires
        spec_preserves_terrain(a, b),
        in_world_depth(q),
        a.spec_has_chunk(spec_chunk_pos_of(q)),
    ensures
        spec_world_exposed(a, q) == spec_world_exposed(b, q),
{
    crate::world::lemma_local_pos_in_bounds(q);
    assert(spec_world_block(a, q) == spec_world_block(b, q));
    if spec_world_exposed(a, q) {
        let n = choose|n: BlockPosition|
            #[trigger] spec_is_adjacent(n, q) && spec_world_sees_through(a, n);
        crate::world::lemma_local_pos_in_bounds(n);
        assert(spec_world_sees_through(b, n));
    }
    if spec_world_exposed(b, q) {
        let n = choose|n: BlockPosition|
            #[trigger] spec_is_adjacent(n, q) && spec_world_sees_through(b, n);
        crate::world::lemma_local_pos_in_bounds(n);
        assert(spec_world_sees_through(a, n));
    }
}

/// Evaluates the world-level exposure rule at a loaded position.
fn world_exposure_of(world: &World, q: BlockPosition) -> (r: bool)
    requires
        world.wf(),
        in_world_depth(q),
        world.spec_has_chunk(spec_chunk_pos_of(q)),
        i32::MIN < q.x < i32::MAX,
        i32::MIN < q.y < i32::MAX,
    ensures
        r == spec_world_exposed(world, q),
{
    let visible: bool = match world.block(q) {
        Some(b) => b.definition().is_visible(),
        None => false,
    };

    let offsets: Vec<BlockPosition> = Chunk::block_offsets(q);
    let mut found: bool = false;
    let mut j: usize = 0;
    while j < offsets.len()
        invariant
            world.wf(),
            j <= offsets@.len(),
            forall|u: int|
                0 <= u < offsets@.len() ==> spec_is_adjacent(#[trigger] offsets@[u], q) && 0
                    <= offsets@[u].z < CHUNK_DEPTH,
            found == exists|u: int|
                0 <= u < j && spec_world_sees_through(world, #[trigger] offsets@[u]),
        decreases offsets@.len() - j,
    {
        let n: BlockPosition = offsets[j];
        match world.block(n) {
            Some(nb) => {
                let nd = nb.definition();
                if nd.is_transparent() || !nd.is_visible() {
                    found = true;
                    proof {
                        assert(spec_world_sees_through(world, offsets@[j as int]));
                    }
                }
            },
            None => {},
        }
        j += 1;
    }

    let r: bool = visible && found;
    proof {
        if r {
            let u = choose|u: int|
                0 <= u < offsets@.len() && spec_world_sees_through(world, #[trigger] offsets@[u]);
            assert(spec_is_adjacent(offsets@[u], q) && spec_world_sees_through(
                world,
                offsets@[u],
            ));
        }
        if !r && spec_world_exposed(world, q) && visible {
            let n = choose|n: BlockPosition|
                #[trigger] spec_is_adjacent(n, q) && spec_world_sees_through(world, n);
            assert(offsets@.contains(n));
            let w = choose|w: int| 0 <= w < offsets@.len() && offsets@[w] == n;
            assert(spec_world_sees_through(world, offsets@[w]));
            assert(false);
        }
    }
    r
}

/// Recomputes the stored exposure flag of one position from the rule. A
/// position in an ungenerated chunk is left alone.
fn update_exposed_at(world: &mut World, q: BlockPosition)
    requires
        old(world).wf(),
        in_world_depth(q),
        i32::MIN < q.x < i32::MAX,
        i32::MIN < q.y < i32::MAX,
    ensures
        final(world).wf(),
        final(world).spec_dirty() == old(world).spec_dirty(),
        spec_preserves_terrain(final(world), old(world)),
        old(world).spec_has_chunk(spec_chunk_pos_of(q)) ==> spec_world_exposed_at(
            final(world),
            q,
        ) == spec_world_exposed(old(world), q),
        forall|p: BlockPosition|
            in_world_depth(p) && old(world).spec_has_chunk(spec_chunk_pos_of(p)) && p != q
                ==> #[trigger] spec_world_exposed_at(final(world), p) == spec_world_exposed_at(
                old(world),
                p,
            ),
{
    if !world.is_chunk_at_pos(World::block_to_chunk_pos(q)) {
        return ;
    }
    let exposed: bool = world_exposure_of(world, q);
    let ghost pre = *world;
    world.set_is_exposed(q, exposed);
    proof {
        crate::world::lemma_local_pos_in_bounds(q);
        if exposed {
            // a visible block is non-air, so its subchunk is allocated and
            // the flag lands
            assert(spec_definition(spec_world_block(&pre, q)).visible);
            lemma_nonzero_block_implies_present(
                &pre.spec_chunk_at(spec_chunk_pos_of(q)),
                spec_local_pos_of(q),
            );
        }
        assert forall|p: BlockPosition|
            in_world_depth(p) && old(world).spec_has_chunk(spec_chunk_pos_of(p)) && p
                != q implies #[trigger] spec_world_exposed_at(final(world), p)
            == spec_world_exposed_at(old(world), p) by {
            crate::world::lemma_local_pos_in_bounds(p);
            if spec_chunk_pos_of(p) == spec_chunk_pos_of(q) {
                crate::world::lemma_global_pos_injective(p, q);
            }
        }
    }
}

/// Recomputes the stored exposure of a position and of each of its axis
/// neighbors, resolving neighbors through the world; positions in
/// ungenerated chunks are left alone, and nothing but exposure changes.
pub fn update_surrounding_exposed(world: &mut World, pos: BlockPosition)
    requires
        old(world).wf(),
        in_world_depth(pos),
        i32::MIN + 1 < pos.x < i32::MAX - 1,
        i32::MIN + 1 < pos.y < i32::MAX - 1,
    ensures
        final(world).wf(),
        final(world).spec_dirty() == old(world).spec_dirty(),
        spec_preserves_terrain(final(world), old(world)),
        forall|p: BlockPosition|
            in_world_depth(p) && old(world).spec_has_chunk(spec_chunk_pos_of(p))
                ==> #[trigger] spec_world_exposed_at(final(world), p) == if p == pos
                || spec_is_adjacent(p, pos) {
                spec_world_exposed(old(world), p)
            } else {
                spec_world_exposed_at(old(world), p)
            },
{
    update_exposed_at(world, pos);
    proof {
        if old(world).spec_has_chunk(spec_chunk_pos_of(pos)) {
            lemma_same_terrain_same_rule(world, old(world), pos);
        }
    }
    let offsets: Vec<BlockPosition> = Chunk::block_offsets(pos);
    let mut j: usize = 0;
    while j < offsets.len()
        invariant
            world.wf(),
            in_world_depth(pos),
            i32::MIN + 1 < pos.x < i32::MAX - 1,
            i32::MIN + 1 < pos.y < i32::MAX - 1,
            j <= offsets@.len(),
            forall|u: int|
                0 <= u < offsets@.len() ==> spec_is_adjacent(#[trigger] offsets@[u], pos) && 0
                    <= offsets@[u].z < CHUNK_DEPTH,
            forall|n: BlockPosition|
                spec_is_adjacent(n, pos) && 0 <= n.z < CHUNK_DEPTH ==> offsets@.contains(n),
            world.spec_dirty() == old(world).spec_dirty(),
            spec_preserves_terrain(world, old(world)),
            forall|p: BlockPosition|
                in_world_depth(p) && old(world).spec_has_chunk(spec_chunk_pos_of(p))
                    ==> #[trigger] spec_world_exposed_at(world, p) == if p == pos || exists|u: int|
                    0 <= u < j && offsets@[u] == p {
                    spec_world_exposed(old(world), p)
                } else {
                    spec_world_exposed_at(old(world), p)
                },
        decreases offsets@.len() - j,
    {
        let n: BlockPosition = offsets[j];
        let ghost pre = *world;
        update_exposed_at(world, n);
        proof {
            lemma_preserves_terrain_trans(world, &pre, old(world));
            if old(world).spec_has_chunk(spec_chunk_pos_of(n)) {
                lemma_same_terrain_same_rule(&pre, old(world), n);
            }
            assert forall|p: BlockPosition|
                in_world_depth(p) && old(world).spec_has_chunk(spec_chunk_pos_of(p)) implies (
            #[trigger] spec_world_exposed_at(world, p)) == if p == pos || exists|u: int|
                0 <= u < j + 1 && offsets@[u] == p {
                spec_world_exposed(old(world), p)
            } else {
                spec_world_exposed_at(old(world), p)
            } by {
                if p == n {
                } else {
                    if exists|u: int| 0 <= u < j + 1 && offsets@[u] == p {
                        let u = choose|u: int| 0 <= u < j + 1 && offsets@[u] == p;
                        assert(u < j);
                        assert(exists|u2: int| 0 <= u2 < j && offsets@[u2] == p);
                    }
                }
            }
        }
        j += 1;
    }
    proof {
        assert forall|p: BlockPosition|
            in_world_depth(p) && old(world).spec_has_chunk(spec_chunk_pos_of(p)) implies (
        #[trigger] spec_world_exposed_at(world, p)) == if p == pos || spec_is_adjacent(p, pos) {
            spec_world_exposed(old(world), p)
        } else {
            spec_world_exposed_at(old(world), p)
        } by {
            if p != pos {
                if spec_is_adjacent(p, pos) {
                    assert(offsets@.contains(p));
                    let u = choose|u: int| 0 <= u < offsets@.len() && offsets@[u] == p;
                    assert(exists|u2: int|
                        0 <= u2 < offsets@.len() && offsets@[u2] == p);
                } else {
                    if exists|u: int| 0 <= u < offsets@.len() && offsets@[u] == p {
                        let u = choose|u: int|
                            0 <= u < offsets@.len() && offsets@[u] == p;
                        assert(spec_is_adjacent(offsets@[u], p) || true);
                        assert(false);
                    }
                }
            }
        }
    }
}

/// Breaks the block at a global position: if its chunk is loaded and its
/// kind is breakable, the block reads as air afterwards, the chunk and its
/// neighbors are marked dirty, and the exposure of the position and of its
/// axis neighbors is recomputed in the same call. Anything else changes
/// nothing and reports failure.
pub fn break_block(world: &mut World, pos: BlockPosition) -> (r: bool)
    requires
        old(world).wf(),
        in_world_depth(pos),
        i32::MIN + 1 < pos.x < i32::MAX - 1,
        i32::MIN + 1 < pos.y < i32::MAX - 1,
    ensures
        final(world).wf(),
        r <==> (old(world).spec_has_chunk(spec_chunk_pos_of(pos)) && spec_definition(
            spec_world_block(old(world), pos),
        ).breakable),
        !r ==> spec_same_chunks(final(world), old(world)) && final(world).spec_dirty() == old(
            world,
        ).spec_dirty(),
        r ==> spec_world_block(final(world), pos) == Block::Air,
        r ==> forall|cq: ChunkPosition|
            #[trigger] final(world).spec_has_chunk(cq) == old(world).spec_has_chunk(cq),
        r ==> forall|p: BlockPosition|
            in_world_depth(p) && old(world).spec_has_chunk(spec_chunk_pos_of(p)) && p != pos
                ==> #[trigger] spec_world_block(final(world), p) == spec_world_block(
                old(world),
                p,
            ),
        r ==> forall|q: ChunkPosition|
            #[trigger] final(world).spec_dirty().contains(q) <==> (old(
                world,
            ).spec_dirty().contains(q) || q == spec_chunk_pos_of(pos) || spec_adjacent_chunk(
                q,
                spec_chunk_pos_of(pos),
            )),
        r ==> forall|p: BlockPosition|
            in_world_depth(p) && old(world).spec_has_chunk(spec_chunk_pos_of(p)) && (p == pos
                || spec_is_adjacent(p, pos)) ==> #[trigger] spec_world_exposed_at(
                final(world),
                p,
            ) == spec_world_exposed(final(world), p),
{
    let breakable: bool = match world.block(pos) {
        Some(b) => b.definition().is_breakable(),
        None => false,
    };
    if !breakable {
        return false;
    }

    world.set_block(pos, Block::Air);
    let ghost mid = *world;
    proof {
        crate::world::lemma_local_pos_in_bounds(pos);
        assert forall|p: BlockPosition|
            in_world_depth(p) && old(world).spec_has_chunk(spec_chunk_pos_of(p)) && p
                != pos implies #[trigger] spec_world_block(&mid, p) == spec_world_block(
            old(world),
            p,
        ) by {
            crate::world::lemma_local_pos_in_bounds(p);
            if spec_chunk_pos_of(p) == spec_chunk_pos_of(pos) {
                crate::world::lemma_global_pos_injective(p, pos);
            }
        }
    }
    update_surrounding_exposed(world, pos);
    proof {
        assert forall|p: BlockPosition|
            in_world_depth(p) && old(world).spec_has_chunk(spec_chunk_pos_of(p)) && (p == pos
                || spec_is_adjacent(p, pos)) implies #[trigger] spec_world_exposed_at(
            final(world),
            p,
        ) == spec_world_exposed(final(world), p) by {
            crate::world::lemma_local_pos_in_bounds(p);
            lemma_same_terrain_same_rule(world, &mid, p);
        }
    }
    true
}

/// Places a block at a global position: if its chunk is loaded and the
/// block already there is replaceable, the position reads as the placed
/// block afterwards, the chunk and its neighbors are marked dirty, and the
/// exposure of the position and of its axis neighbors is recomputed in the
/// same call. Anything else changes nothing and reports failure.
pub fn place_block(world: &mut World, pos: BlockPosition, block: Block) -> (r: bool)
    requires
        old(world).wf(),
        in_world_depth(pos),
        i32::MIN + 1 < pos.x < i32::MAX - 1,
        i32::MIN + 1 < pos.y < i32::MAX - 1,
    ensures
        final(world).wf(),
        r <==> (old(world).spec_has_chunk(spec_chunk_pos_of(pos)) && spec_definition(
            spec_world_block(old(world), pos),
        ).replaceable),
        !r ==> spec_same_chunks(final(world), old(world)) && final(world).spec_dirty() == old(
            world,
        ).spec_dirty(),
        r ==> spec_world_block(final(world), pos) == spec_block_of_id(
            crate::block::spec_block_id(block),
        ),
        r ==> forall|cq: ChunkPosition|
            #[trigger] final(world).spec_has_chunk(cq) == old(world).spec_has_chunk(cq),
        r ==> forall|p: BlockPosition|
            in_world_depth(p) && old(world).spec_has_chunk(spec_chunk_pos_of(p)) && p != pos
                ==> #[trigger] spec_world_block(final(world), p) == spec_world_block(
                old(world),
                p,
            ),
        r ==> forall|q: ChunkPosition|
            #[trigger] final(world).spec_dirty().contains(q) <==> (old(
                world,
            ).spec_dirty().contains(q) || q == spec_chunk_pos_of(pos) || spec_adjacent_chunk(
                q,
                spec_chunk_pos_of(pos),
            )),
        r ==> forall|p: BlockPosition|
            in_world_depth(p) && old(world).spec_has_chunk(spec_chunk_pos_of(p)) && (p == pos
                || spec_is_adjacent(p, pos)) ==> #[trigger] spec_world_exposed_at(
                final(world),
                p,
            ) == spec_world_exposed(final(world), p),
{
    let replaceable: bool = match world.block(pos) {
        Some(b) => b.definition().is_replaceable(),
        None => false,
    };
    if !replaceable {
        return false;
    }

    world.set_block(pos, block);
    let ghost mid = *world;
    proof {
        crate::world::lemma_local_pos_in_bounds(pos);
        assert forall|p: BlockPosition|
            in_world_depth(p) && old(world).spec_has_chunk(spec_chunk_pos_of(p)) && p
                != pos implies #[trigger] spec_world_block(&mid, p) == spec_world_block(
            old(world),
            p,
        ) by {
            crate::world::lemma_local_pos_in_bounds(p);
            if spec_chunk_pos_of(p) == spec_chunk_pos_of(pos) {
                crate::world::lemma_global_pos_injective(p, pos);
            }
        }
    }
    update_surrounding_exposed(world, pos);
    proof {
        assert forall|p: BlockPosition|
            in_world_depth(p) && old(world).spec_has_chunk(spec_chunk_pos_of(p)) && (p == pos
                || spec_is_adjacent(p, pos)) implies #[trigger] spec_world_exposed_at(
            final(world),
            p,
        ) == spec_world_exposed(final(world), p) by {
            crate::world::lemma_local_pos_in_bounds(p);
            lemma_same_terrain_same_rule(world, &mid, p);
        }
    }
    true
}

/// The zero corner of a chunk plus an in-bounds local offset decomposes
/// back into that chunk position and that local position.
proof fn lemma_global_of_local(cp: ChunkPosition, q: BlockPosition)
    requires
        in_chunk_bounds(q),
        i32::MIN <= cp.x as int * CHUNK_WIDTH as int,
        cp.x as int * CHUNK_WIDTH as int + CHUNK_WIDTH <= i32::MAX,
        i32::MIN <= cp.y as int * CHUNK_HEIGHT as int,
        cp.y as int * CHUNK_HEIGHT as int + CHUNK_HEIGHT <= i32::MAX,
    ensures
        spec_chunk_pos_of(spec_global_pos(cp, q)) == cp,
        spec_local_pos_of(spec_global_pos(cp, q)) == q,
        in_world_depth(spec_global_pos(cp, q)),
{
    vstd::arithmetic::div_mod::lemma_fundamental_div_mod_converse(
        cp.x as int * CHUNK_WIDTH as int + q.x as int,
        CHUNK_WIDTH as int,
        cp.x as int,
        q.x as int,
    );
    vstd::arithmetic::div_mod::lemma_fundamental_div_mod_converse(
        cp.y as int * CHUNK_HEIGHT as int + q.y as int,
        CHUNK_HEIGHT as int,
        cp.y as int,
        q.y as int,
    );
}

/// Recomputes the exposure of every voxel of a loaded chunk from the
/// world-level rule, resolving neighbors across chunk boundaries through
/// the world. Returns `None`, changing nothing, when no chunk is stored at
/// the position. Exposure depends only on blocks and chunk presence, which
/// this never changes, so the flags written agree with the rule evaluated
/// on the world as it was and as it is afterwards.
pub fn update_exposed_blocks(world: &mut World, chunk_pos: ChunkPosition) -> (r: Option<()>)
    requires
        old(world).wf(),
        i32::MIN < chunk_pos.x as int * CHUNK_WIDTH as int,
        chunk_pos.x as int * CHUNK_WIDTH as int + CHUNK_WIDTH <= i32::MAX,
        i32::MIN < chunk_pos.y as int * CHUNK_HEIGHT as int,
        chunk_pos.y as int * CHUNK_HEIGHT as int + CHUNK_HEIGHT <= i32::MAX,
    ensures
        final(world).wf(),
        final(world).spec_dirty() == old(world).spec_dirty(),
        spec_preserves_terrain(final(world), old(world)),
        r is Some <==> old(world).spec_has_chunk(chunk_pos),
        r is None ==> spec_same_chunks(final(world), old(world)),
        r is Some ==> forall|q: BlockPosition|
            in_chunk_bounds(q) ==> #[trigger] spec_world_exposed_at(
                final(world),
                spec_global_pos(chunk_pos, q),
            ) == spec_world_exposed(old(world), spec_global_pos(chunk_pos, q)),
        r is Some ==> forall|p: BlockPosition|
            in_world_depth(p) && old(world).spec_has_chunk(spec_chunk_pos_of(p))
                && spec_chunk_pos_of(p) != chunk_pos ==> #[trigger] spec_world_exposed_at(
                final(world),
                p,
            ) == spec_world_exposed_at(old(world), p),
{
    if !world.is_chunk_at_pos(chunk_pos) {
        return None;
    }

    let corner: BlockPosition = crate::position::Conversion::chunk_to_block_pos(chunk_pos);
    let coords: Vec<BlockPosition> = Chunk::chunk_coords();
    let mut t: usize = 0;
    while t < CHUNK_VOLUME
        invariant
            t <= CHUNK_VOLUME,
            world.wf(),
            world.spec_dirty() == old(world).spec_dirty(),
            spec_preserves_terrain(world, old(world)),
            old(world).spec_has_chunk(chunk_pos),
            corner.x as int == chunk_pos.x as int * CHUNK_WIDTH as int,
            corner.y as int == chunk_pos.y as int * CHUNK_HEIGHT as int,
            i32::MIN < chunk_pos.x as int * CHUNK_WIDTH as int,
            chunk_pos.x as int * CHUNK_WIDTH as int + CHUNK_WIDTH <= i32::MAX,
            i32::MIN < chunk_pos.y as int * CHUNK_HEIGHT as int,
            chunk_pos.y as int * CHUNK_HEIGHT as int + CHUNK_HEIGHT <= i32::MAX,
            coords@.len() == CHUNK_VOLUME,
            forall|u: int| 0 <= u < CHUNK_VOLUME ==> in_chunk_bounds(#[trigger] coords@[u]),
            forall|u: int|
                0 <= u < CHUNK_VOLUME ==> spec_chunk_flat_index(#[trigger] coords@[u]) == u,
            forall|q: BlockPosition|
                in_chunk_bounds(q) && spec_chunk_flat_index(q) < t
                    ==> #[trigger] spec_world_exposed_at(world, spec_global_pos(chunk_pos, q))
                    == spec_world_exposed(old(world), spec_global_pos(chunk_pos, q)),
            forall|p: BlockPosition|
                in_world_depth(p) && old(world).spec_has_chunk(spec_chunk_pos_of(p)) && !(
                spec_chunk_pos_of(p) == chunk_pos && spec_chunk_flat_index(spec_local_pos_of(p))
                    < t) ==> #[trigger] spec_world_exposed_at(world, p) == spec_world_exposed_at(
                    old(world),
                    p,
                ),
        decreases CHUNK_VOLUME - t,
    {
        let q: BlockPosition = coords[t];
        let global: BlockPosition = BlockPosition {
            x: corner.x + q.x,
            y: corner.y + q.y,
            z: q.z,
        };
        proof {
            lemma_global_of_local(chunk_pos, q);
            assert(global == spec_global_pos(chunk_pos, q));
        }
        let ghost pre = *world;
        update_exposed_at(world, global);
        proof {
            lemma_preserves_terrain_trans(world, &pre, old(world));
            lemma_same_terrain_same_rule(&pre, old(world), global);
            assert forall|p: BlockPosition|
                in_world_depth(p) && old(world).spec_has_chunk(spec_chunk_pos_of(p)) && !(
                spec_chunk_pos_of(p) == chunk_pos && spec_chunk_flat_index(spec_local_pos_of(p))
                    < t + 1) implies #[trigger] spec_world_exposed_at(world, p)
                == spec_world_exposed_at(old(world), p) by {
                if p != global {
                } else {
                    crate::position::lemma_position_round_trip(p);
                    assert(false);
                }
            }
            assert forall|lq: BlockPosition|
                in_chunk_bounds(lq) && spec_chunk_flat_index(lq) < t
                    + 1 implies #[trigger] spec_world_exposed_at(
                world,
                spec_global_pos(chunk_pos, lq),
            ) == spec_world_exposed(old(world), spec_global_pos(chunk_pos, lq)) by {
                lemma_global_of_local(chunk_pos, lq);
                if spec_chunk_flat_index(lq) < t {
                    if spec_global_pos(chunk_pos, lq) == global {
                        crate::chunk::lemma_chunk_flat_index_injective(lq, q);
                        assert(false);
                    }
                }
            }
        }
        t += 1;
    }
    proof {
        assert forall|p: BlockPosition|
            in_world_depth(p) && old(world).spec_has_chunk(spec_chunk_pos_of(p))
                && spec_chunk_pos_of(p) != chunk_pos implies #[trigger] spec_world_exposed_at(
            world,
            p,
        ) == spec_world_exposed_at(old(world), p) by {}
        assert forall|q: BlockPosition| in_chunk_bounds(q) implies #[trigger]
            spec_world_exposed_at(world, spec_global_pos(chunk_pos, q)) == spec_world_exposed(
            old(world),
            spec_global_pos(chunk_pos, q),
        ) by {
            crate::chunk::lemma_chunk_coords_cover(q);
        }
    }
    Some(())
}

} // verus!
