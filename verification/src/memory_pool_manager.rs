//! Bounded pool of reusable, equal-size, zeroed byte buffers.
//!
//! The pool pre-fills `pool_size` zeroed buffers of `buffer_size` bytes.
//! `acquire_buffer` never waits: it pops a pooled buffer or allocates a
//! fresh one.  `release_buffer` zeroes a returned buffer and keeps it only
//! while the pool holds fewer than `pool_size` buffers; everything beyond
//! that is dropped.  So the pool never holds more than `pool_size`
//! buffers, and every buffer it hands out is zeroed.

use vstd::prelude::*;

verus! {

/// A sequence of `n` zero bytes.
pub open spec fn zero_buffer(n: nat) -> Seq<u8> {
    Seq::new(n, |i: int| 0u8)
}

/// The abstract state of the pool.
#[verifier::ext_equal]
pub ghost struct PoolModel {
    /// Length of every buffer the pool manages.
    pub buffer_size: usize,
    /// Most buffers the pool will hold at once.
    pub pool_size: usize,
    /// Buffers currently available for reuse.
    pub available: Seq<Seq<u8>>,
    /// Buffers issued over the pool's lifetime, in use or pooled.
    pub total: usize,
}

impl PoolModel {
    /// The pool never exceeds its capacity and holds only zeroed buffers
    /// of the configured size.
    pub open spec fn wf(self) -> bool {
        &&& self.available.len() <= self.pool_size
        &&& forall|i: int|
            0 <= i < self.available.len() ==> self.available[i] == zero_buffer(
                self.buffer_size as nat,
            )
    }
}

/// `acquire_buffer()`: the state after the call and the buffer returned.
/// A pooled buffer is reused if one is available; otherwise a fresh zeroed
/// buffer is allocated and counted.
pub open spec fn spec_acquire(m: PoolModel) -> (PoolModel, Seq<u8>) {
    if m.available.len() > 0 {
        (PoolModel { available: m.available.drop_last(), ..m }, m.available.last())
    } else {
        (
            PoolModel { total: (m.total + 1) as usize, ..m },
            zero_buffer(m.buffer_size as nat),
        )
    }
}

/// `release_buffer(buf)`: a buffer of the wrong size is dropped; a correct
/// one is zeroed and pooled unless the pool is already full.
pub open spec fn spec_release(m: PoolModel, buf: Seq<u8>) -> PoolModel {
    if buf.len() != m.buffer_size {
        m
    } else if m.available.len() < m.pool_size {
        PoolModel { available: m.available.push(zero_buffer(m.buffer_size as nat)), ..m }
    } else {
        m
    }
}

/// One client action against the pool.
pub ghost enum PoolOp {
    Acquire,
    Release(Seq<u8>),
}

/// The pool state after one action; the buffer an acquire returns is not
/// tracked here.
pub open spec fn spec_apply(m: PoolModel, op: PoolOp) -> PoolModel {
    match op {
        PoolOp::Acquire => spec_acquire(m).0,
        PoolOp::Release(buf) => spec_release(m, buf),
    }
}

/// The pool state after a whole interleaving of actions.
pub open spec fn spec_apply_all(m: PoolModel, ops: Seq<PoolOp>) -> PoolModel
    decreases ops.len(),
{
    if ops.len() == 0 {
        m
    } else {
        spec_apply_all(spec_apply(m, ops[0]), ops.drop_first())
    }
}

/// One action preserves the pool's bound and zeroing.
pub proof fn lemma_apply_preserves_wf(m: PoolModel, op: PoolOp)
    requires
        m.wf(),
    ensures
        spec_apply(m, op).wf(),
{
}

/// Pool conservation: under any interleaving of acquires and releases the
/// number of available buffers never exceeds the pool's capacity, and
/// every pooled buffer is zeroed, so a released buffer is zeroed before
/// it can be reused.
pub proof fn lemma_pool_conservation(m: PoolModel, ops: Seq<PoolOp>)
    requires
        m.wf(),
    ensures
        spec_apply_all(m, ops).wf(),
    decreases ops.len(),
{
    if ops.len() > 0 {
        lemma_apply_preserves_wf(m, ops[0]);
        lemma_pool_conservation(spec_apply(m, ops[0]), ops.drop_first());
    }
}

/// A bounded pool of equal-size byte buffers with dynamic overflow
/// allocation.
pub struct MemoryPoolManager {
    buffer_size: usize,
    pool_size: usize,
    available_buffers: Vec<Vec<u8>>,
    total_buffers: usize,
}

impl View for MemoryPoolManager {
    type V = PoolModel;

    closed spec fn view(&self) -> PoolModel {
        PoolModel {
            buffer_size: self.buffer_size,
            pool_size: self.pool_size,
            available: Seq::new(self.available_buffers@.len(), |i: int| self.available_buffers@[i]@),
            total: self.total_buffers,
        }
    }
}

impl MemoryPoolManager {
    /// A pool pre-filled with `pool_size` zeroed buffers of `buffer_size`
    /// bytes each.
    pub fn instance(buffer_size: usize, pool_size: usize) -> (r: Self)
        ensures
            r@ == (PoolModel {
                buffer_size,
                pool_size,
                available: Seq::new(pool_size as nat, |i: int| zero_buffer(buffer_size as nat)),
                total: pool_size,
            }),
            r@.wf(),
    {
        let mut available_buffers: Vec<Vec<u8>> = Vec::new();
        let mut i: usize = 0;
        while i < pool_size
            invariant
                i <= pool_size,
                available_buffers@.len() == i,
                forall|j: int|
                    0 <= j < i ==> available_buffers@[j]@ == zero_buffer(buffer_size as nat),
            decreases pool_size - i,
        {
            let buf: Vec<u8> = vec![0u8; buffer_size];
            proof {
                assert(buf@ =~= zero_buffer(buffer_size as nat));
            }
            available_buffers.push(buf);
            i += 1;
        }
        let r = MemoryPoolManager { buffer_size, pool_size, available_buffers, total_buffers: pool_size };
        proof {
            assert(r@.available =~= Seq::new(
                pool_size as nat,
                |i: int| zero_buffer(buffer_size as nat),
            ));
        }
        r
    }

    /// Pop a pooled buffer, or allocate a fresh zeroed one if the pool is
    /// empty; never waits.
    pub fn acquire_buffer(&mut self) -> (r: Vec<u8>)
        requires
            old(self)@.wf(),
            old(self)@.total < usize::MAX,
        ensures
            final(self)@ == spec_acquire(old(self)@).0,
            r@ == spec_acquire(old(self)@).1,
            r@ == zero_buffer(old(self)@.buffer_size as nat),
            final(self)@.wf(),
    {
        let popped = self.available_buffers.pop();
        match popped {
            Some(buffer) => {
                proof {
                    assert(self@.available =~= spec_acquire(old(self)@).0.available);
                    assert(self@ =~= spec_acquire(old(self)@).0);
                }
                buffer
            },
            None => {
                self.total_buffers = self.total_buffers + 1;
                let buf: Vec<u8> = vec![0u8; self.buffer_size];
                proof {
                    assert(buf@ =~= zero_buffer(old(self)@.buffer_size as nat));
                    assert(self@ =~= spec_acquire(old(self)@).0);
                }
                buf
            },
        }
    }

    /// Zero a returned buffer and pool it, unless its size is wrong or the
    /// pool is already full; in those cases the buffer is dropped.
    pub fn release_buffer(&mut self, buffer: Vec<u8>)
        requires
            old(self)@.wf(),
        ensures
            final(self)@ == spec_release(old(self)@, buffer@),
            final(self)@.wf(),
    {
        if buffer.len() != self.buffer_size {
            return;
        }
        if self.available_buffers.len() < self.pool_size {
            let mut cleared = buffer;
            let mut i: usize = 0;
            while i < cleared.len()
                invariant
                    i <= cleared@.len(),
                    cleared@.len() == buffer@.len(),
                    forall|j: int| 0 <= j < i ==> cleared@[j] == 0u8,
                decreases cleared@.len() - i,
            {
                cleared.set(i, 0u8);
                i += 1;
            }
            proof {
                assert(cleared@ =~= zero_buffer(old(self)@.buffer_size as nat));
            }
            self.available_buffers.push(cleared);
            proof {
                assert(self@.available =~= spec_release(old(self)@, buffer@).available);
                assert(self@ =~= spec_release(old(self)@, buffer@));
            }
        }
    }

    /// How many buffers are pooled right now.
    pub fn get_available_buffers(&self) -> (r: usize)
        ensures
            r == self@.available.len(),
    {
        self.available_buffers.len()
    }

    /// How many buffers were issued over the pool's lifetime.
    pub fn get_total_buffers(&self) -> (r: usize)
        ensures
            r == self@.total,
    {
        self.total_buffers
    }

    /// The size of every buffer the pool manages.
    pub fn get_buffer_size(&self) -> (r: usize)
        ensures
            r == self@.buffer_size,
    {
        self.buffer_size
    }
}

} // verus!
