//! Bookkeeping for the asynchronous chunk-generation pipeline.
//!
//! A chunk position moves from unrequested to queued to in-flight, and
//! finally either merges into the world or is released for a retry. The
//! queue deduplicates requests: a position already present in the world,
//! already queued, or already running is never queued again, so at most
//! one generation task exists per chunk position at any time.

use vstd::prelude::*;
use vstd::seq_lib::lemma_seq_contains_after_push;

use crate::chunk::Chunk;
use crate::position::ChunkPosition;
use crate::world::{spec_adjacent_chunk, spec_in_square, spec_same_chunks, World};

verus! {

/// The pipeline's request bookkeeping: the positions waiting for a task to
/// be spawned, and the positions whose tasks are currently running.
pub struct GenerationQueue {
    to_generate: Vec<ChunkPosition>,
    in_flight: Vec<ChunkPosition>,
}

impl GenerationQueue {
    /// The positions waiting for a generation task, oldest first.
    pub closed spec fn spec_queued(&self) -> Seq<ChunkPosition> {
        self.to_generate@
    }

    /// The positions whose generation tasks are currently running.
    pub closed spec fn spec_in_flight(&self) -> Seq<ChunkPosition> {
        self.in_flight@
    }

    /// Each position appears at most once in the queue, at most once in
    /// flight, and never in both at the same time.
    pub closed spec fn wf(&self) -> bool {
        &&& self.to_generate@.no_duplicates()
        &&& self.in_flight@.no_duplicates()
        &&& forall|q: ChunkPosition|
            #[trigger] self.to_generate@.contains(q) ==> !self.in_flight@.contains(q)
    }

    /// Creates empty bookkeeping: nothing queued, nothing in flight.
    pub fn new() -> (r: Self)
        ensures
            r.wf(),
            r.spec_queued() == Seq::<ChunkPosition>::empty(),
            r.spec_in_flight() == Seq::<ChunkPosition>::empty(),
    {
        GenerationQueue { to_generate: Vec::new(), in_flight: Vec::new() }
    }

    /// Whether a position is waiting for a task to be spawned.
    fn queued_contains(&self, pos: ChunkPosition) -> (r: bool)
        ensures
            r == self.spec_queued().contains(pos),
    {
        Self::seq_contains(&self.to_generate, pos)
    }

    /// Whether a position's generation task is currently running.
    pub fn in_flight_contains(&self, pos: ChunkPosition) -> (r: bool)
        ensures
            r == self.spec_in_flight().contains(pos),
    {
        Self::seq_contains(&self.in_flight, pos)
    }

    /// Whether a list of positions holds the given one.
    fn seq_contains(list: &Vec<ChunkPosition>, pos: ChunkPosition) -> (r: bool)
        ensures
            r == list@.contains(pos),
    {
        let mut i: usize = 0;
        let n: usize = list.len();
        while i < n
            invariant
                i <= n,
                n == list@.len(),
                forall|t: int| 0 <= t < i ==> list@[t] != pos,
            decreases n - i,
        {
            if list[i] == pos {
                proof {
                    assert(list@[i as int] == pos);
                }
                return true;
            }
            i += 1;
        }
        false
    }

    /// Queues every desired position that is not already present in the
    /// world, already queued, or already in flight. Requesting generation
    /// for a position already present is a no-op: no task will be spawned
    /// for it.
    pub fn choose_chunks_to_generate(&mut self, world: &World, origin: ChunkPosition, radius: u32)
        requires
            old(self).wf(),
            world.wf(),
            i32::MIN <= origin.x - radius,
            origin.x + radius < i32::MAX,
            i32::MIN <= origin.y - radius,
            origin.y + radius < i32::MAX,
        ensures
            final(self).wf(),
            final(self).spec_in_flight() == old(self).spec_in_flight(),
            forall|q: ChunkPosition|
                #[trigger] final(self).spec_queued().contains(q) <==> (old(self).spec_queued().contains(q) || (spec_in_square(q, origin, radius)
                    && !world.spec_has_chunk(q) && !old(self).spec_in_flight().contains(q))),
    {
        broadcast use lemma_seq_contains_after_push;

        let positions: Vec<ChunkPosition> = World::positions_in_square(origin, radius);
        let mut i: usize = 0;
        while i < positions.len()
            invariant
                i <= positions@.len(),
                world.wf(),
                self.wf(),
                self.in_flight@ == old(self).in_flight@,
                forall|t: int|
                    0 <= t < positions@.len() ==> spec_in_square(
                        #[trigger] positions@[t],
                        origin,
                        radius,
                    ),
                forall|q: ChunkPosition|
                    spec_in_square(q, origin, radius) ==> positions@.contains(q),
                forall|q: ChunkPosition|
                    #[trigger] self.to_generate@.contains(q) <==> (old(self).to_generate@.contains(q) || (exists|u: int|
                        0 <= u < i && positions@[u] == q
                    ) && !world.spec_has_chunk(q) && !old(self).in_flight@.contains(q)),
            decreases positions@.len() - i,
        {
            let pos: ChunkPosition = positions[i];
            let ghost prev = self.to_generate@;
            let not_present: bool = !world.is_chunk_at_pos(pos);
            let not_running: bool = !self.in_flight_contains(pos);
            let not_queued: bool = !self.queued_contains(pos);
            if not_present && not_running && not_queued {
                self.to_generate.push(pos);
                proof {
                    assert forall|a: int, b: int|
                        0 <= a < b < self.to_generate@.len() implies self.to_generate@[a]
                        != self.to_generate@[b] by {
                        if b == self.to_generate@.len() - 1 {
                            assert(prev.contains(self.to_generate@[a])) by {
                                assert(prev[a] == self.to_generate@[a]);
                            }
                        }
                    }
                    assert forall|q: ChunkPosition|
                        #[trigger] self.to_generate@.contains(q) implies !self
                        .in_flight@.contains(q) by {
                        if q != pos {
                            assert(prev.contains(q));
                        }
                    }
                }
            }
            proof {
                assert(positions@[i as int] == pos);
                assert forall|q: ChunkPosition|
                    (#[trigger] self.to_generate@.contains(q)) == (old(
                    self,
                ).to_generate@.contains(q) || (exists|u: int|
                    0 <= u < i + 1 && positions@[u] == q
                ) && !world.spec_has_chunk(q) && !old(self).in_flight@.contains(q)) by {
                    lemma_seq_contains_after_push(prev, pos, q);
                    let rhs_cond = !world.spec_has_chunk(q) && !old(self).in_flight@.contains(q);
                    if q == pos {
                        assert(exists|u: int| 0 <= u < i + 1 && positions@[u] == q);
                        if not_present && not_running && not_queued {
                            assert(self.to_generate@.contains(q));
                            assert(rhs_cond);
                        } else {
                            assert(self.to_generate@ == prev);
                            if rhs_cond {
                                assert(!not_queued);
                                assert(prev.contains(q));
                            } else {
                                assert(prev.contains(q) == (old(self).to_generate@.contains(q)
                                    || (exists|u: int| 0 <= u < i && positions@[u] == q)
                                        && rhs_cond));
                                assert(prev.contains(q) == old(self).to_generate@.contains(q));
                            }
                        }
                    } else {
                        assert(self.to_generate@.contains(q) == prev.contains(q));
                        if exists|u: int| 0 <= u < i + 1 && positions@[u] == q {
                            let u = choose|u: int| 0 <= u < i + 1 && positions@[u] == q;
                            assert(u != i);
                            assert(exists|u2: int| 0 <= u2 < i && positions@[u2] == q);
                        }
                        if exists|u: int| 0 <= u < i && positions@[u] == q {
                            let u = choose|u: int| 0 <= u < i && positions@[u] == q;
                            assert(exists|u2: int| 0 <= u2 < i + 1 && positions@[u2] == q);
                        }
                    }
                }
            }
            i += 1;
        }
        proof {
            assert forall|q: ChunkPosition|
                #[trigger] self.to_generate@.contains(q) <==> (old(self).to_generate@.contains(q) || (spec_in_square(q, origin, radius)
                && !world.spec_has_chunk(q) && !old(self).in_flight@.contains(q))) by {
                if spec_in_square(q, origin, radius) {
                    let w = choose|w: int|
                        0 <= w < positions@.len() && positions@[w] == q;
                    assert(exists|u: int|
                        0 <= u < positions@.len() && positions@[u] == q);
                }
                if exists|u: int| 0 <= u < positions@.len() && positions@[u] == q {
                    let u = choose|u: int|
                        0 <= u < positions@.len() && positions@[u] == q;
                    assert(spec_in_square(positions@[u], origin, radius));
                }
            }
        }
    }

    /// Moves up to `max_tasks` queued positions into the in-flight set and
    /// returns them: one generation task is to be spawned per returned
    /// position, bounding the work accepted in one tick.
    pub fn take_tasks(&mut self, max_tasks: usize) -> (r: Vec<ChunkPosition>)
        requires
            old(self).wf(),
        ensures
            final(self).wf(),
            r@.no_duplicates(),
            r@.len() == if max_tasks <= old(self).spec_queued().len() {
                max_tasks as int
            } else {
                old(self).spec_queued().len() as int
            },
            forall|q: ChunkPosition|
                #[trigger] r@.contains(q) ==> old(self).spec_queued().contains(q),
            forall|q: ChunkPosition|
                #[trigger] final(self).spec_in_flight().contains(q) <==> (old(self).spec_in_flight().contains(q) || r@.contains(q)),
            forall|q: ChunkPosition|
                #[trigger] final(self).spec_queued().contains(q) <==> (old(self).spec_queued().contains(q) && !r@.contains(q)),
    {
        broadcast use lemma_seq_contains_after_push;

        let mut r: Vec<ChunkPosition> = Vec::new();
        let mut k: usize = 0;
        while k < max_tasks && self.to_generate.len() > 0
            invariant
                k <= max_tasks,
                r@.len() == k,
                r@.no_duplicates(),
                self.wf(),
                self.to_generate@.len() == old(self).to_generate@.len() - k,
                forall|q: ChunkPosition|
                    #[trigger] r@.contains(q) ==> old(self).to_generate@.contains(q),
                forall|q: ChunkPosition|
                    #[trigger] self.in_flight@.contains(q) <==> (old(self).in_flight@.contains(q)
                        || r@.contains(q)),
                forall|q: ChunkPosition|
                    #[trigger] self.to_generate@.contains(q) <==> (old(self).to_generate@.contains(q) && !r@.contains(q)),
            decreases self.to_generate@.len(),
        {
            let ghost pre_q = self.to_generate@;
            let ghost pre_f = self.in_flight@;
            let ghost pre_r = r@;
            let pos: ChunkPosition = match self.to_generate.pop() {
                Some(p) => p,
                None => {
                    proof {
                        assert(false);
                    }
                    ChunkPosition { x: 0, y: 0 }
                },
            };
            proof {
                assert(pre_q == self.to_generate@.push(pos));
                assert forall|q: ChunkPosition|
                    #[trigger] self.to_generate@.contains(q) implies pre_q.contains(q) && q
                    != pos by {
                    let w = choose|w: int|
                        0 <= w < self.to_generate@.len() && self.to_generate@[w] == q;
                    assert(pre_q[w] == q);
                    if q == pos {
                        assert(pre_q[pre_q.len() - 1] == pos);
                    }
                }
                assert forall|q: ChunkPosition|
                    pre_q.contains(q) && q != pos implies #[trigger] self.to_generate@.contains(
                    q,
                ) by {
                    let w = choose|w: int| 0 <= w < pre_q.len() && pre_q[w] == q;
                    assert(w < pre_q.len() - 1);
                    assert(self.to_generate@[w] == q);
                }
                assert(pre_q.contains(pos)) by {
                    assert(pre_q[pre_q.len() - 1] == pos);
                }
            }
            proof {
                assert(old(self).to_generate@.contains(pos) && !pre_r.contains(pos)
                    && !pre_f.contains(pos));
            }
            self.in_flight.push(pos);
            r.push(pos);
            proof {
                assert forall|a: int, b: int|
                    0 <= a < b < self.in_flight@.len() implies self.in_flight@[a]
                    != self.in_flight@[b] by {
                    if b == self.in_flight@.len() - 1 {
                        assert(pre_f.contains(self.in_flight@[a])) by {
                            assert(pre_f[a] == self.in_flight@[a]);
                        }
                    }
                }
                assert forall|a: int, b: int| 0 <= a < b < r@.len() implies r@[a] != r@[b] by {
                    if b == r@.len() - 1 {
                        assert(pre_r.contains(r@[a])) by {
                            assert(pre_r[a] == r@[a]);
                        }
                    }
                }
                assert forall|q: ChunkPosition|
                    (#[trigger] r@.contains(q)) implies old(self).to_generate@.contains(q) by {
                    lemma_seq_contains_after_push(pre_r, pos, q);
                }
                assert forall|q: ChunkPosition|
                    (#[trigger] self.in_flight@.contains(q)) == (old(self).in_flight@.contains(q)
                        || r@.contains(q)) by {
                    lemma_seq_contains_after_push(pre_f, pos, q);
                    lemma_seq_contains_after_push(pre_r, pos, q);
                }
                assert forall|q: ChunkPosition|
                    (#[trigger] self.to_generate@.contains(q)) == (old(
                    self,
                ).to_generate@.contains(q) && !r@.contains(q)) by {
                    lemma_seq_contains_after_push(pre_r, pos, q);
                    assert(self.to_generate@.contains(q) == (pre_q.contains(q) && q != pos));
                }
                assert forall|q: ChunkPosition|
                    (#[trigger] self.to_generate@.contains(q)) implies !self.in_flight@.contains(
                    q,
                ) by {
                    lemma_seq_contains_after_push(pre_f, pos, q);
                    assert(pre_q.contains(q) && q != pos);
                    assert(!pre_f.contains(q));
                }
            }
            k += 1;
        }
        r
    }

    /// Takes a position out of the in-flight set, whether its task merged,
    /// was discarded, or failed: the position becomes eligible for a
    /// re-request on a later tick.
    pub fn release(&mut self, pos: ChunkPosition)
        requires
            old(self).wf(),
        ensures
            final(self).wf(),
            final(self).spec_queued() == old(self).spec_queued(),
            forall|q: ChunkPosition|
                #[trigger] final(self).spec_in_flight().contains(q) <==> (old(self).spec_in_flight().contains(q) && q != pos),
    {
        let mut i: usize = 0;
        let n: usize = self.in_flight.len();
        while i < n
            invariant
                i <= n,
                self.wf(),
                n == self.in_flight@.len(),
                self.to_generate@ == old(self).to_generate@,
                self.in_flight@ == old(self).in_flight@,
                forall|t: int| 0 <= t < i ==> self.in_flight@[t] != pos,
            decreases n - i,
        {
            if self.in_flight[i] == pos {
                let ghost pre = self.in_flight@;
                self.in_flight.remove(i);
                proof {
                    assert(self.in_flight@ == pre.remove(i as int));
                    assert forall|q: ChunkPosition|
                        #[trigger] self.in_flight@.contains(q) implies pre.contains(q) && q
                        != pos by {
                        let w = choose|w: int|
                            0 <= w < self.in_flight@.len() && self.in_flight@[w] == q;
                        if w < i {
                            assert(pre[w] == q);
                        } else {
                            assert(pre[w + 1] == q);
                        }
                        if q == pos {
                            assert(pre[i as int] == pos);
                        }
                    }
                    assert forall|q: ChunkPosition|
                        pre.contains(q) && q != pos implies #[trigger] self.in_flight@.contains(
                        q,
                    ) by {
                        let w = choose|w: int| 0 <= w < pre.len() && pre[w] == q;
                        if w < i {
                            assert(self.in_flight@[w] == q);
                        } else {
                            assert(w != i);
                            assert(self.in_flight@[w - 1] == q);
                        }
                    }
                    assert forall|a: int, b: int|
                        0 <= a < b < self.in_flight@.len() implies self.in_flight@[a]
                        != self.in_flight@[b] by {
                        let pa = if a < i {
                            a
                        } else {
                            a + 1
                        };
                        let pb = if b < i {
                            b
                        } else {
                            b + 1
                        };
                        assert(self.in_flight@[a] == pre[pa] && self.in_flight@[b] == pre[pb]);
                    }
                    assert forall|q: ChunkPosition|
                        #[trigger] self.to_generate@.contains(q) implies !self.in_flight@.contains(
                        q,
                    ) by {
                        assert(!pre.contains(q) || false ==> true);
                        if self.in_flight@.contains(q) {
                            assert(pre.contains(q));
                        }
                    }
                }
                return ;
            }
            i += 1;
        }
    }

    /// Merges a finished chunk into the world and releases its position
    /// from the in-flight set. If a chunk already exists at that position —
    /// a benign race with another task — the new result is discarded and
    /// nothing else changes; otherwise the chunk is stored and its position
    /// and neighbors are marked dirty.
    pub fn complete(&mut self, world: &mut World, chunk: Chunk) -> (r: bool)
        requires
            old(self).wf(),
            old(world).wf(),
            chunk.wf(),
            i32::MIN < chunk.spec_pos().x < i32::MAX,
            i32::MIN < chunk.spec_pos().y < i32::MAX,
        ensures
            final(self).wf(),
            final(world).wf(),
            final(self).spec_queued() == old(self).spec_queued(),
            forall|q: ChunkPosition|
                #[trigger] final(self).spec_in_flight().contains(q) <==> (old(self).spec_in_flight().contains(q) && q != chunk.spec_pos()),
            r <==> !old(world).spec_has_chunk(chunk.spec_pos()),
            !r ==> spec_same_chunks(final(world), old(world)) && final(world).spec_dirty()
                == old(world).spec_dirty(),
            r ==> final(world).spec_has_chunk(chunk.spec_pos()) && final(world).spec_chunk_at(
                chunk.spec_pos(),
            ) == chunk,
            r ==> forall|q: ChunkPosition|
                q != chunk.spec_pos() ==> #[trigger] final(world).spec_has_chunk(q) == old(world).spec_has_chunk(q),
            r ==> forall|q: ChunkPosition|
                q != chunk.spec_pos() && old(world).spec_has_chunk(q) ==> #[trigger] final(world).spec_chunk_at(q) == old(world).spec_chunk_at(q),
            r ==> forall|q: ChunkPosition|
                #[trigger] final(world).spec_dirty().contains(q) <==> (old(world).spec_dirty().contains(q) || q == chunk.spec_pos() || spec_adjacent_chunk(
                    q,
                    chunk.spec_pos(),
                )),
    {
        let pos: ChunkPosition = chunk.position();
        self.release(pos);
        if world.is_chunk_at_pos(pos) {
            return false;
        }
        world.set_chunk(chunk);
        world.mark_chunks_dirty_with_adj(pos);
        true
    }
}

/// A position never waits in the queue while its task is already running:
/// the queued and in-flight sets are disjoint.
pub proof fn lemma_queued_and_in_flight_disjoint(queue: &GenerationQueue, pos: ChunkPosition)
    requires
        queue.wf(),
    ensures
        !(queue.spec_queued().contains(pos) && queue.spec_in_flight().contains(pos)),
{
}

/// At most one in-flight generation task exists per chunk position: the
/// in-flight set counts every position at most once.
pub proof fn lemma_at_most_one_in_flight(queue: &GenerationQueue, pos: ChunkPosition)
    requires
        queue.wf(),
    ensures
        queue.spec_in_flight().to_multiset().count(pos) <= 1,
{
    queue.spec_in_flight().lemma_multiset_has_no_duplicates();
    broadcast use vstd::seq_lib::group_to_multiset_ensures;

    if queue.spec_in_flight().to_multiset().count(pos) > 1 {
        assert(queue.spec_in_flight().to_multiset().contains(pos));
    }
}

} // verus!
