//! A fixed pool of reusable buffers: a handle is claimed with `get`, comes
//! cleared, and gives its slot back with `release`.

use vstd::prelude::*;
use vstd::set_lib::{lemma_int_range, lemma_len_subset, set_int_range};

verus! {

/// A buffer claimed from a pool, with the slot that it came from.
pub struct PoolBuffer<T> {
    buffer: Vec<T>,
    idx: usize,
}

impl<T> View for PoolBuffer<T> {
    type V = Seq<T>;

    closed spec fn view(&self) -> Seq<T> {
        self.buffer@
    }
}

impl<T> PoolBuffer<T> {
    /// The slot that the buffer came from.
    pub closed spec fn slot(&self) -> int {
        self.idx as int
    }

    /// The slot that the buffer came from.
    pub fn index(&self) -> (i: usize)
        ensures
            i == self.slot(),
    {
        self.idx
    }
}

impl<T> std::ops::Deref for PoolBuffer<T> {
    type Target = Vec<T>;

    fn deref(&self) -> (v: &Vec<T>)
        ensures
            v@ == self@,
    {
        &self.buffer
    }
}

impl<T> std::ops::DerefMut for PoolBuffer<T> {
    fn deref_mut(&mut self) -> (v: &mut Vec<T>)
        ensures
            v@ == old(self)@,
            final(self)@ == final(v)@,
            final(self).slot() == old(self).slot(),
    {
        &mut self.buffer
    }
}

/// A pool of a fixed number of buffers.
pub struct BufferPool<T> {
    buffers: Vec<Option<Vec<T>>>,
    in_use: usize,
}

impl<T> BufferPool<T> {
    /// The number of buffers that the pool was made with.
    pub closed spec fn size(&self) -> nat {
        self.buffers@.len()
    }

    /// The slots whose buffers are claimed.
    pub closed spec fn live(&self) -> Set<int> {
        Set::new(|i: int| 0 <= i < self.buffers@.len() && self.buffers@[i] is None)
    }

    /// The number of claimed buffers, as the occupancy counter holds it.
    pub closed spec fn in_use(&self) -> nat {
        self.in_use as nat
    }

    /// The occupancy counter counts the claimed slots.
    pub closed spec fn wf(&self) -> bool {
        self.in_use as nat == self.live().len()
    }

    /// The claimed slots are slots of the pool, so there are never more of
    /// them than the pool has buffers.
    pub proof fn lemma_live_bounded(&self)
        ensures
            self.live().finite(),
            self.live().len() <= self.size(),
            forall|i: int| self.live().contains(i) ==> 0 <= i < self.size(),
            self.wf() ==> self.in_use() <= self.size(),
    {
        lemma_int_range(0, self.buffers@.len() as int);
        lemma_len_subset(self.live(), set_int_range(0, self.buffers@.len() as int));
    }

    /// A pool of `count` free buffers, each allocated with room for `capacity`
    /// items.
    pub fn new(count: usize, capacity: usize) -> (pool: Self)
        ensures
            pool.wf(),
            pool.size() == count,
            pool.in_use() == 0,
            pool.live() == Set::<int>::empty(),
    {
        let mut buffers: Vec<Option<Vec<T>>> = Vec::with_capacity(count);
        let mut i: usize = 0;
        while i < count
            invariant
                i <= count,
                buffers@.len() == i,
                forall|j: int| 0 <= j < i ==> (#[trigger] buffers@[j]) is Some,
            decreases count - i,
        {
            buffers.push(Some(Vec::with_capacity(capacity)));
            i += 1;
        }
        let pool = BufferPool { buffers, in_use: 0 };
        assert(pool.live() =~= Set::<int>::empty());
        pool
    }

    /// The number of buffers of the pool.
    pub fn len(&self) -> (n: usize)
        ensures
            n == self.size(),
    {
        self.buffers.len()
    }

    /// The number of claimed buffers.
    pub fn in_use_count(&self) -> (n: usize)
        ensures
            n == self.in_use(),
    {
        self.in_use
    }

    /// Claims a free buffer. While fewer buffers are claimed than the pool
    /// has, a handle comes back: its buffer is empty and its slot was free and
    /// is now claimed. When every buffer is claimed, nothing comes back and
    /// the pool is unchanged.
    pub fn get(&mut self) -> (handle: Option<PoolBuffer<T>>)
        requires
            old(self).wf(),
        ensures
            final(self).wf(),
            final(self).size() == old(self).size(),
            handle is None <==> old(self).in_use() == old(self).size(),
            handle is None ==> final(self).live() == old(self).live() && final(self).in_use()
                == old(self).in_use(),
            handle matches Some(h) ==> {
                &&& h@.len() == 0
                &&& 0 <= h.slot() < old(self).size()
                &&& !old(self).live().contains(h.slot())
                &&& final(self).live() == old(self).live().insert(h.slot())
                &&& final(self).in_use() == old(self).in_use() + 1
            },
    {
        proof {
            self.lemma_live_bounded();
        }
        let n = self.buffers.len();
        if self.in_use >= n {
            return None;
        }
        let mut i: usize = 0;
        while i < n
            invariant
                i <= n,
                n == self.buffers@.len(),
                self.buffers@ == old(self).buffers@,
                self.in_use == old(self).in_use,
                self.in_use < n,
                old(self).wf(),
                old(self).live().finite(),
                forall|j: int| 0 <= j < i ==> (#[trigger] self.buffers@[j]) is None,
            decreases n - i,
        {
            match self.buffers[i].take() {
                Some(mut buffer) => {
                    buffer.clear();
                    self.in_use = self.in_use + 1;
                    proof {
                        assert(self.live() =~= old(self).live().insert(i as int));
                    }
                    return Some(PoolBuffer { buffer, idx: i });
                },
                None => {
                    assert(self.buffers@ =~= old(self).buffers@);
                },
            }
            i += 1;
        }
        proof {
            assert(self.live() =~= set_int_range(0, n as int));
            lemma_int_range(0, n as int);
        }
        None
    }

    /// Gives a buffer back. If the slot of the handle is claimed, it becomes
    /// free and holds the buffer again; otherwise the pool is unchanged and
    /// the buffer is dropped.
    pub fn release(&mut self, handle: PoolBuffer<T>)
        requires
            old(self).wf(),
        ensures
            final(self).wf(),
            final(self).size() == old(self).size(),
            final(self).live() == old(self).live().remove(handle.slot()),
            final(self).in_use() == if old(self).live().contains(handle.slot()) {
                old(self).in_use() - 1
            } else {
                old(self).in_use() as int
            },
    {
        proof {
            self.lemma_live_bounded();
        }
        let PoolBuffer { buffer, idx } = handle;
        if idx < self.buffers.len() && self.buffers[idx].is_none() {
            proof {
                assert(self.live().contains(idx as int));
                assert(self.live().len() == self.live().remove(idx as int).len() + 1);
            }
            self.buffers.set(idx, Some(buffer));
            self.in_use = self.in_use - 1;
            proof {
                assert(self.live() =~= old(self).live().remove(idx as int));
            }
        } else {
            proof {
                assert(old(self).live().remove(idx as int) =~= old(self).live());
            }
        }
    }
}

} // verus!
