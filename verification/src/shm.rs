//! Shared-memory pools and the buffers carved out of them: a pool is
//! unmapped only once no buffer refers to it (a destroy request waits for
//! the last buffer).
use std::collections::HashMap;

use vstd::prelude::*;
use vstd::std_specs::iter::IteratorSpec;

verus! {

broadcast use vstd::std_specs::hash::group_hash_axioms;

/// A pool: its size, and whether its destruction waits for buffers.
#[derive(Clone, Copy, Debug, PartialEq, Eq, Structural)]
pub struct ShmPool {
    pub size: usize,
    pub pending_destroy: bool,
}

/// A buffer: the pool it lives in and its layout there.
#[derive(Clone, Copy, Debug, PartialEq, Eq, Structural)]
pub struct ShmBuffer {
    pub pool_id: u32,
    pub offset: i32,
    pub width: i32,
    pub height: i32,
    pub stride: i32,
    pub format: u32,
}

/// The pools and buffers of the shm global, by object id.
pub struct WlShmState {
    pools: HashMap<u32, ShmPool>,
    buffers: HashMap<u32, ShmBuffer>,
}

/// Some buffer of `buffers` lives in pool `pool`.
pub open spec fn in_use(buffers: Map<u32, ShmBuffer>, pool: u32) -> bool {
    exists|b: u32| #[trigger] buffers.contains_key(b) && buffers[b].pool_id == pool
}

impl WlShmState {
    /// The mapped pools.
    pub closed spec fn pools(&self) -> Map<u32, ShmPool> {
        self.pools@
    }

    /// The buffers.
    pub closed spec fn buffers(&self) -> Map<u32, ShmBuffer> {
        self.buffers@
    }

    /// Every buffer's pool is still mapped.
    pub open spec fn wf(&self) -> bool {
        forall|b: u32| #[trigger] self.buffers().contains_key(b) ==> self.pools().contains_key(self.buffers()[b].pool_id)
    }

    /// No pool and no buffer.
    pub fn new() -> (s: Self)
        ensures
            s.wf(),
            s.pools() == Map::<u32, ShmPool>::empty(),
            s.buffers() == Map::<u32, ShmBuffer>::empty(),
    {
        WlShmState { pools: HashMap::new(), buffers: HashMap::new() }
    }

    /// The pool `id`, if mapped.
    pub fn pool(&self, id: u32) -> (r: Option<ShmPool>)
        ensures
            r == (if self.pools().contains_key(id) { Some(self.pools()[id]) } else { None::<ShmPool> }),
    {
        match self.pools.get(&id) {
            Some(p) => Some(*p),
            None => None,
        }
    }

    /// The buffer `id`, if any.
    pub fn buffer(&self, id: u32) -> (r: Option<ShmBuffer>)
        ensures
            r == (if self.buffers().contains_key(id) { Some(self.buffers()[id]) } else { None::<ShmBuffer> }),
    {
        match self.buffers.get(&id) {
            Some(b) => Some(*b),
            None => None,
        }
    }

    /// Whether some buffer lives in pool `pool`.
    pub fn pool_in_use(&self, pool: u32) -> (r: bool)
        ensures
            r == in_use(self.buffers(), pool),
    {
        let ghost m = self.buffers@;
        let ghost sq = vstd::std_specs::hash::spec_hash_map_iter(&self.buffers).remaining();
        for kv in it: self.buffers.iter()
            invariant
                m == self.buffers@,
                it.seq() == sq,
                forall|i: int| 0 <= i < sq.len() ==> m.contains_key(*sq[i].0) && m[*sq[i].0] == *sq[i].1,
                forall|k: u32| #[trigger] m.contains_key(k) ==> sq.contains((&k, &m[k])),
                forall|i: int| 0 <= i < it.index() ==> (*sq[i].1).pool_id != pool,
        {
            let (k, b) = kv;
            if b.pool_id == pool {
                proof {
                    let i = it.index();
                    assert(m.contains_key(*sq[i].0));
                }
                return true;
            }
        }
        proof {
            if in_use(m, pool) {
                let b = choose|b: u32| #[trigger] m.contains_key(b) && m[b].pool_id == pool;
                assert(sq.contains((&b, &m[b])));
                let i = choose|i: int| 0 <= i < sq.len() && sq[i] == (&b, &m[b]);
                assert((*sq[i].1).pool_id != pool);
            }
        }
        false
    }

    /// `wl_shm.create_pool`: pool `id` of `size` bytes was mapped.
    pub fn create_pool(&mut self, id: u32, size: usize)
        requires
            old(self).wf(),
        ensures
            final(self).wf(),
            final(self).pools() == old(self).pools().insert(id, ShmPool { size, pending_destroy: false }),
            final(self).buffers() == old(self).buffers(),
    {
        self.pools.insert(id, ShmPool { size, pending_destroy: false });
        proof {
            assert forall|b: u32| #[trigger] self.buffers().contains_key(b) implies self.pools().contains_key(self.buffers()[b].pool_id) by {
                assert(old(self).buffers().contains_key(b) || b == id);
            }
        }
    }

    /// `wl_shm_pool.create_buffer` on pool `pool`, which must be mapped.
    pub fn create_buffer(&mut self, pool: u32, id: u32, offset: i32, width: i32, height: i32, stride: i32, format: u32)
        requires
            old(self).wf(),
            old(self).pools().contains_key(pool),
        ensures
            final(self).wf(),
            final(self).pools() == old(self).pools(),
            final(self).buffers() == old(self).buffers().insert(id, ShmBuffer { pool_id: pool, offset, width, height, stride, format }),
    {
        self.buffers.insert(id, ShmBuffer { pool_id: pool, offset, width, height, stride, format });
        proof {
            assert forall|b: u32| #[trigger] self.buffers().contains_key(b) implies self.pools().contains_key(self.buffers()[b].pool_id) by {
                assert(old(self).buffers().contains_key(b) || b == id);
            }
        }
    }

    /// `wl_shm_pool.destroy`: the pool is forgotten at once when no buffer
    /// lives in it (returns `true`: unmap it now); otherwise its
    /// destruction waits for the last buffer.
    pub fn destroy_pool(&mut self, id: u32) -> (unmap: bool)
        requires
            old(self).wf(),
        ensures
            final(self).wf(),
            final(self).buffers() == old(self).buffers(),
            unmap == (old(self).pools().contains_key(id) && !in_use(old(self).buffers(), id)),
            unmap ==> final(self).pools() == old(self).pools().remove(id),
            !unmap && old(self).pools().contains_key(id) ==> final(self).pools()
                == old(self).pools().insert(id, ShmPool { pending_destroy: true, ..old(self).pools()[id] }),
            !old(self).pools().contains_key(id) ==> final(self).pools() == old(self).pools(),
    {
        if self.pool_in_use(id) {
            match self.pools.remove(&id) {
                Some(p) => {
                    self.pools.insert(id, ShmPool { pending_destroy: true, ..p });
                    proof {
                        assert forall|b: u32| #[trigger] self.buffers().contains_key(b) implies self.pools().contains_key(self.buffers()[b].pool_id) by {
                            assert(old(self).buffers().contains_key(b));
                        }
                    }
                },
                None => {},
            }
            false
        } else {
            match self.pools.remove(&id) {
                Some(_) => {
                    proof {
                        assert forall|b: u32| #[trigger] self.buffers().contains_key(b) implies self.pools().contains_key(self.buffers()[b].pool_id) by {
                            assert(old(self).pools().contains_key(old(self).buffers()[b].pool_id));
                            if old(self).buffers()[b].pool_id == id {
                                assert(in_use(old(self).buffers(), id));
                            }
                        }
                    }
                    true
                },
                None => false,
            }
        }
    }

    /// `wl_shm_pool.resize`: the pool (if mapped) now has `size` bytes;
    /// returns whether it was remapped.
    pub fn resize_pool(&mut self, id: u32, size: usize) -> (remapped: bool)
        requires
            old(self).wf(),
        ensures
            final(self).wf(),
            final(self).buffers() == old(self).buffers(),
            remapped == old(self).pools().contains_key(id),
            remapped ==> final(self).pools() == old(self).pools().insert(id, ShmPool { size, ..old(self).pools()[id] }),
            !remapped ==> final(self).pools() == old(self).pools(),
    {
        match self.pools.remove(&id) {
            Some(p) => {
                self.pools.insert(id, ShmPool { size, ..p });
                proof {
            assert forall|b: u32| #[trigger] self.buffers().contains_key(b) implies self.pools().contains_key(self.buffers()[b].pool_id) by {
                assert(old(self).buffers().contains_key(b) || b == id);
            }
        }
                true
            },
            None => {
                proof {
                    assert forall|b: u32| #[trigger] self.buffers().contains_key(b) implies self.pools().contains_key(self.buffers()[b].pool_id) by {
                        assert(old(self).buffers().contains_key(b));
                        assert(old(self).pools().contains_key(old(self).buffers()[b].pool_id));
                    }
                }
                false
            },
        }
    }

    /// `wl_buffer.destroy`: forgets the buffer; when it was the last one
    /// of a pool waiting to be destroyed, the pool goes too and its id is
    /// returned, to be unmapped.
    pub fn destroy_buffer(&mut self, id: u32) -> (unmap: Option<u32>)
        requires
            old(self).wf(),
        ensures
            final(self).wf(),
            final(self).buffers() == old(self).buffers().remove(id),
            !old(self).buffers().contains_key(id) ==> unmap is None && final(self).pools() == old(self).pools(),
            old(self).buffers().contains_key(id) ==> {
                let p = old(self).buffers()[id].pool_id;
                let last = old(self).pools()[p].pending_destroy && !in_use(old(self).buffers().remove(id), p);
                &&& last ==> unmap == Some(p) && final(self).pools() == old(self).pools().remove(p)
                &&& !last ==> unmap is None && final(self).pools() == old(self).pools()
            },
    {
        match self.buffers.remove(&id) {
            Some(buf) => {
                let pool_id = buf.pool_id;
                let pending = match self.pools.get(&pool_id) {
                    Some(p) => p.pending_destroy,
                    None => false,
                };
                if pending && !self.pool_in_use(pool_id) {
                    self.pools.remove(&pool_id);
                    proof {
                        assert forall|b: u32| #[trigger] self.buffers().contains_key(b) implies self.pools().contains_key(self.buffers()[b].pool_id) by {
                            assert(old(self).buffers().contains_key(b));
                            if self.buffers()[b].pool_id == pool_id {
                                assert(in_use(self.buffers(), pool_id));
                            }
                        }
                    }
                    Some(pool_id)
                } else {
                    proof {
                        assert forall|b: u32| #[trigger] self.buffers().contains_key(b) implies self.pools().contains_key(self.buffers()[b].pool_id) by {
                            assert(old(self).buffers().contains_key(b));
                        }
                    }
                    None
                }
            },
            None => {
                proof {
                    assert forall|b: u32| #[trigger] self.buffers().contains_key(b) implies self.pools().contains_key(self.buffers()[b].pool_id) by {
                        assert(old(self).buffers().contains_key(b));
                    }
                }
                None
            },
        }
    }
}

/// A pool is never unmapped while a buffer lives in it: after any
/// destroy request, every remaining buffer's pool is still mapped.
pub proof fn lemma_no_buffer_outlives_pool(s: &WlShmState, b: u32)
    requires
        s.wf(),
        s.buffers().contains_key(b),
    ensures
        s.pools().contains_key(s.buffers()[b].pool_id),
{
}

} // verus!
