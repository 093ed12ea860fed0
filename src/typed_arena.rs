use vstd::prelude::*;

verus! {

/// An arena of values of one type. Values live in chunks whose capacity is
/// fixed when the chunk is made and never exceeded, so that a chunk never
/// moves what it holds; a full chunk is set aside and a larger one started.
/// Values are reached through the handles that allocation returns, which
/// stay valid and keep their value for the life of the arena.
pub struct TypedArena<T> {
    chunks: ChunkList<T>,
}

struct ChunkList<T> {
    current: Vec<T>,
    /// The capacity that `current` was made with.
    current_cap: usize,
    rest: Vec<Vec<T>>,
}

/// Where an allocated value lives: a chunk, and an index in it.
#[derive(Clone, Copy, Debug, PartialEq, Eq, Structural)]
pub struct ArenaRef {
    pub chunk: usize,
    pub index: usize,
}

/// Where an allocated run of values lives: a chunk, the index of the first,
/// and how many.
#[derive(Clone, Copy, Debug, PartialEq, Eq, Structural)]
pub struct ArenaSlice {
    pub chunk: usize,
    pub start: usize,
    pub len: usize,
}

/// The number of bytes that the first chunk of an arena takes.
pub const INITIAL_SIZE: usize = 1024;

const MIN_CAPACITY: usize = 1;

/// `p` is the smallest power of two at or above `n`.
pub open spec fn is_next_power_of_two(p: int, n: int) -> bool {
    &&& exists|k: nat| p == vstd::arithmetic::power2::pow2(k)
    &&& n <= p
    &&& (p == 1 || p / 2 < n)
}

/// The smallest power of two at or above `n`.
fn next_power_of_two(n: usize) -> (r: usize)
    requires
        n <= usize::MAX / 2,
    ensures
        is_next_power_of_two(r as int, n as int),
{
    let mut p: usize = 1;
    let ghost mut k: nat = 0;
    proof {
        vstd::arithmetic::power2::lemma2_to64();
    }
    while p < n
        invariant
            p == vstd::arithmetic::power2::pow2(k),
            1 <= p,
            n <= usize::MAX / 2,
            p == 1 || p / 2 < n,
        decreases usize::MAX - p,
    {
        proof {
            vstd::arithmetic::power2::lemma_pow2_unfold(k + 1);
        }
        p = p * 2;
        proof {
            k = k + 1;
        }
    }
    p
}

impl<T> ChunkList<T> {
    /// Sets the current chunk aside and starts one with room for at least
    /// `additional` values and twice the capacity of the last.
    fn reserve(&mut self, additional: usize)
        requires
            1 <= old(self).current_cap,
            2 * old(self).current_cap <= usize::MAX,
            additional <= usize::MAX / 2,
        ensures
            final(self).rest@ == old(self).rest@.push(old(self).current),
            final(self).current@.len() == 0,
            final(self).current_cap >= 2 * old(self).current_cap,
            final(self).current_cap >= additional,
            exists|p: int|
                is_next_power_of_two(p, additional as int) && final(self).current_cap == if 2
                    * old(self).current_cap >= p {
                    2 * old(self).current_cap
                } else {
                    p
                },
    {
        let double_cap = self.current_cap * 2;
        let required_cap = next_power_of_two(additional);
        let new_capacity = if double_cap >= required_cap {
            double_cap
        } else {
            required_cap
        };
        let mut chunk: Vec<T> = Vec::with_capacity(new_capacity);
        std::mem::swap(&mut self.current, &mut chunk);
        self.rest.push(chunk);
        self.current_cap = new_capacity;
    }
}

impl<T> TypedArena<T> {
    /// The values of each chunk: the set-aside chunks, then the current one.
    pub closed spec fn chunks(&self) -> Seq<Seq<T>> {
        self.chunks.rest@.map_values(|v: Vec<T>| v@).push(self.chunks.current@)
    }

    /// The capacity of the current chunk.
    pub closed spec fn capacity(&self) -> int {
        self.chunks.current_cap as int
    }

    /// The current chunk holds no more than its capacity, which is at least
    /// one.
    pub open spec fn wf(&self) -> bool {
        &&& 1 <= self.capacity() <= usize::MAX
        &&& self.chunks().last().len() <= self.capacity()
    }

    /// The current chunk can take one more value, or a new one can be
    /// started at twice its capacity.
    pub open spec fn can_grow(&self) -> bool {
        self.chunks().last().len() < self.capacity() || 2 * self.capacity() <= usize::MAX
    }

    /// The values kept in the current chunk when `n` more are stored: all of
    /// them where the chunk has room for `n`, else none, since a new chunk is
    /// started.
    pub open spec fn kept_before(&self, n: int) -> Seq<T> {
        if n <= self.capacity() - self.chunks().last().len() {
            self.chunks().last()
        } else {
            Seq::empty()
        }
    }

    /// The handle points at a value of the arena.
    pub open spec fn valid(&self, r: ArenaRef) -> bool {
        r.chunk < self.chunks().len() && r.index < self.chunks()[r.chunk as int].len()
    }

    /// Every value of `old` stays where it was in `new`.
    pub open spec fn keeps(old: Seq<Seq<T>>, new: Seq<Seq<T>>) -> bool {
        &&& old.len() <= new.len()
        &&& forall|c: int, i: int|
            0 <= c < old.len() && 0 <= i < old[c].len() ==> i < new[c].len() && #[trigger] new[c][i]
                == old[c][i]
    }

    /// Creates an arena whose first chunk takes about 1 KiB.
    pub fn new() -> (r: TypedArena<T>)
        ensures
            r.wf(),
            r.chunks() == seq![Seq::<T>::empty()],
            r.capacity() == if vstd::layout::size_of::<T>() > 1 {
                if (INITIAL_SIZE as int) / (vstd::layout::size_of::<T>() as int) > 1 {
                    (INITIAL_SIZE as int) / (vstd::layout::size_of::<T>() as int)
                } else {
                    1
                }
            } else {
                INITIAL_SIZE as int
            },
    {
        let size = core::mem::size_of::<T>();
        let size = if size > 1 {
            size
        } else {
            1
        };
        TypedArena::with_capacity(INITIAL_SIZE / size)
    }

    fn with_capacity(n: usize) -> (r: TypedArena<T>)
        ensures
            r.wf(),
            r.chunks() == seq![Seq::<T>::empty()],
            r.capacity() == if n > MIN_CAPACITY {
                n as int
            } else {
                MIN_CAPACITY as int
            },
    {
        let n = if n > MIN_CAPACITY {
            n
        } else {
            MIN_CAPACITY
        };
        let r = TypedArena {
            chunks: ChunkList { current: Vec::with_capacity(n), current_cap: n, rest: Vec::new() },
        };
        assert(r.chunks() =~= seq![Seq::<T>::empty()]);
        r
    }

    /// The value that a handle points at.
    pub fn get(&self, r: ArenaRef) -> (v: &T)
        requires
            self.valid(r),
        ensures
            *v == self.chunks()[r.chunk as int][r.index as int],
    {
        if r.chunk < self.chunks.rest.len() {
            assert(self.chunks()[r.chunk as int] == self.chunks.rest@[r.chunk as int]@);
            &self.chunks.rest[r.chunk][r.index]
        } else {
            &self.chunks.current[r.index]
        }
    }

    /// Stores a value and returns where it lives.
    pub fn allocate(&mut self, value: T) -> (r: ArenaRef)
        requires
            old(self).wf(),
            old(self).can_grow(),
        ensures
            final(self).wf(),
            TypedArena::keeps(old(self).chunks(), final(self).chunks()),
            final(self).valid(r),
            final(self).chunks()[r.chunk as int][r.index as int] == value,
            r.chunk == final(self).chunks().len() - 1,
            r.index == old(self).kept_before(1).len(),
            final(self).chunks().last() == old(self).kept_before(1).push(value),
            !old(self).valid(r),
    {
        if self.chunks.current.len() < self.chunks.current_cap {
            self.alloc_fast_path(value)
        } else {
            self.alloc_slow_path(value)
        }
    }

    fn alloc_fast_path(&mut self, value: T) -> (r: ArenaRef)
        requires
            old(self).wf(),
            old(self).chunks().last().len() < old(self).capacity(),
        ensures
            final(self).wf(),
            TypedArena::keeps(old(self).chunks(), final(self).chunks()),
            final(self).valid(r),
            final(self).chunks()[r.chunk as int][r.index as int] == value,
            r.chunk == final(self).chunks().len() - 1,
            r.index == old(self).kept_before(1).len(),
            final(self).chunks().last() == old(self).kept_before(1).push(value),
            !old(self).valid(r),
    {
        let ghost old_chunks = self.chunks();
        let index = self.chunks.current.len();
        self.chunks.current.push(value);
        let r = ArenaRef { chunk: self.chunks.rest.len(), index };
        proof {
            let new_chunks = self.chunks();
            assert(new_chunks.len() == old_chunks.len());
            assert forall|c: int, i: int|
                0 <= c < old_chunks.len() && 0 <= i < old_chunks[c].len() implies i
                < new_chunks[c].len() && #[trigger] new_chunks[c][i] == old_chunks[c][i] by {
                if c < old_chunks.len() - 1 {
                    assert(new_chunks[c] == old_chunks[c]);
                }
            }
        }
        r
    }

    fn alloc_slow_path(&mut self, value: T) -> (r: ArenaRef)
        requires
            old(self).wf(),
            old(self).can_grow(),
        ensures
            final(self).wf(),
            TypedArena::keeps(old(self).chunks(), final(self).chunks()),
            final(self).valid(r),
            final(self).chunks()[r.chunk as int][r.index as int] == value,
            r.chunk == final(self).chunks().len() - 1,
            r.index == old(self).kept_before(1).len(),
            final(self).chunks().last() == old(self).kept_before(1).push(value),
            !old(self).valid(r),
    {
        let mut items: Vec<T> = Vec::new();
        items.push(value);
        let s = self.alloc_slice(items);
        assert(self.chunks()[s.chunk as int].subrange(s.start as int, s.start + 1)[0]
            == self.chunks()[s.chunk as int][s.start as int]);
        ArenaRef { chunk: s.chunk, index: s.start }
    }

    /// Stores the values one after the other in one chunk and returns where
    /// they live. Where the current chunk lacks room, a new one is started.
    pub fn alloc_slice(&mut self, items: Vec<T>) -> (r: ArenaSlice)
        requires
            old(self).wf(),
            items@.len() <= usize::MAX / 2,
            items@.len() > old(self).capacity() - old(self).chunks().last().len() ==> 2
                * old(self).capacity() <= usize::MAX,
        ensures
            final(self).wf(),
            TypedArena::keeps(old(self).chunks(), final(self).chunks()),
            r.chunk < final(self).chunks().len(),
            r.len == items@.len(),
            r.start + r.len <= final(self).chunks()[r.chunk as int].len(),
            final(self).chunks()[r.chunk as int].subrange(r.start as int, r.start + r.len)
                == items@,
            items@.len() <= old(self).capacity() - old(self).chunks().last().len() ==> {
                &&& final(self).chunks().len() == old(self).chunks().len()
                &&& final(self).capacity() == old(self).capacity()
            },
            items@.len() > old(self).capacity() - old(self).chunks().last().len() ==> {
                &&& final(self).chunks().len() == old(self).chunks().len() + 1
                &&& exists|p: int|
                    is_next_power_of_two(p, items@.len() as int) && final(self).capacity() == if 2
                        * old(self).capacity() >= p {
                        2 * old(self).capacity()
                    } else {
                        p
                    }
            },
            r.chunk == final(self).chunks().len() - 1,
            r.start == old(self).kept_before(items@.len() as int).len(),
            final(self).chunks().last() == old(self).kept_before(items@.len() as int) + items@,
    {
        let ghost old_chunks = self.chunks();
        let min_len = items.len();
        if min_len > self.chunks.current_cap - self.chunks.current.len() {
            self.chunks.reserve(min_len);
            proof {
                let new_chunks = self.chunks();
                assert(new_chunks.len() == old_chunks.len() + 1);
                assert forall|c: int, i: int|
                    0 <= c < old_chunks.len() && 0 <= i < old_chunks[c].len() implies i
                    < new_chunks[c].len() && #[trigger] new_chunks[c][i] == old_chunks[c][i] by {
                    assert(new_chunks[c] == old_chunks[c]);
                }
            }
        }
        let ghost mid_chunks = self.chunks();
        let start = self.chunks.current.len();
        let chunk = self.chunks.rest.len();
        let mut items = items;
        let ghost all = items@;
        self.chunks.current.append(&mut items);
        proof {
            let new_chunks = self.chunks();
            assert(new_chunks.len() == mid_chunks.len());
            assert forall|c: int, i: int|
                0 <= c < mid_chunks.len() && 0 <= i < mid_chunks[c].len() implies i
                < new_chunks[c].len() && #[trigger] new_chunks[c][i] == mid_chunks[c][i] by {
                if c < mid_chunks.len() - 1 {
                    assert(new_chunks[c] == mid_chunks[c]);
                }
            }
            assert(new_chunks[chunk as int].subrange(start as int, start + min_len) =~= all);
        }
        ArenaSlice { chunk, start, len: min_len }
    }
}

} // verus!
