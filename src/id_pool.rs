//! A pool of small integer identifiers drawn from a fixed range `[start, end)`.
use vstd::prelude::*;
use vstd::set_lib::{lemma_len_subset, lemma_subset_equality};

verus! {

/// Why an identifier could not be occupied.
#[derive(Debug, Clone, Copy, PartialEq, Eq, Structural)]
pub enum PoolError {
    /// The identifier lies outside the pool's range.
    OutOfRange,
}

/// Hands out identifiers from `[start, end)`, lowest free first.
pub struct IdPool {
    start: u32,
    end: u32,
    used: Vec<bool>,
}

/// The identifiers of the range `[start, end)`.
pub open spec fn id_range(start: u32, end: u32) -> Set<u32> {
    Set::new(|x: u32| start <= x && x < end)
}

/// The range `[start, end)` holds `end - start` identifiers.
pub proof fn lemma_id_range_len(start: u32, end: u32)
    requires
        start <= end,
    ensures
        id_range(start, end).finite(),
        id_range(start, end).len() == end - start,
    decreases end - start,
{
    if start == end {
        assert(id_range(start, end) =~= Set::<u32>::empty());
    } else {
        let e = (end - 1) as u32;
        lemma_id_range_len(start, e);
        assert(id_range(start, e).insert(e) =~= id_range(start, end));
    }
}

/// An identifier that `allocate` hands out was not held by anyone before the
/// call and is held afterwards; `allocate` fails exactly when the number of held
/// identifiers equals the size of the range.
pub proof fn lemma_allocate_unique(pool: IdPool, after: IdPool, r: Option<u32>)
    requires
        pool.wf(),
        IdPool::allocate_post(pool, after, r),
    ensures
        r is None <==> pool.held().len() == pool.end_spec() - pool.start_spec(),
        r matches Some(x) ==> !pool.held().contains(x) && after.held().contains(x),
        after.held().len() <= after.end_spec() - after.start_spec(),
{
    pool.lemma_full_iff_count();
    after.lemma_held_in_range();
    if let Some(x) = r {
        assert(pool.range().contains(x));
    }
}

/// After `occupy(x)` succeeds, the next `allocate` does not hand out `x`.
pub proof fn lemma_occupied_not_allocated(
    pool: IdPool,
    x: u32,
    occupied: IdPool,
    after: IdPool,
    r: Option<u32>,
)
    requires
        pool.wf(),
        IdPool::occupy_post(pool, x, occupied, Ok(())),
        IdPool::allocate_post(occupied, after, r),
    ensures
        r != Some(x),
        after.held().contains(x),
{
}

/// Freeing the same identifier twice leaves the pool as freeing it once, and
/// freeing an identifier that is not held changes nothing.
pub proof fn lemma_free_idempotent(pool: IdPool, x: u32, once: IdPool, twice: IdPool)
    requires
        pool.wf(),
        IdPool::free_post(pool, x, once),
        IdPool::free_post(once, x, twice),
    ensures
        twice.held() == once.held(),
        twice.wf(),
        !pool.held().contains(x) ==> once.held() == pool.held(),
{
    assert(twice.held() =~= once.held());
    if !pool.held().contains(x) {
        assert(once.held() =~= pool.held());
    }
}

impl IdPool {
    pub closed spec fn start_spec(&self) -> u32 {
        self.start
    }

    pub closed spec fn end_spec(&self) -> u32 {
        self.end
    }

    /// The identifiers currently held.
    pub closed spec fn held(&self) -> Set<u32> {
        Set::new(
            |x: u32|
                self.start <= x && x < self.end && (x - self.start) < self.used@.len()
                    && self.used@[x - self.start],
        )
    }

    pub closed spec fn wf(&self) -> bool {
        self.start <= self.end && self.used@.len() == self.end - self.start
    }

    /// The range the identifiers are drawn from.
    pub open spec fn range(&self) -> Set<u32> {
        id_range(self.start_spec(), self.end_spec())
    }

    /// Every identifier of the range is held.
    pub open spec fn is_full(&self) -> bool {
        forall|x: u32| #[trigger] self.range().contains(x) ==> self.held().contains(x)
    }

    /// `new` and `old` are the pool before and after `allocate` returned `r`.
    pub open spec fn allocate_post(old: IdPool, new: IdPool, r: Option<u32>) -> bool {
        &&& new.wf()
        &&& new.start_spec() == old.start_spec()
        &&& new.end_spec() == old.end_spec()
        &&& match r {
            Some(x) => {
                &&& old.range().contains(x)
                &&& !old.held().contains(x)
                &&& forall|y: u32|
                    #![trigger old.held().contains(y)]
                    old.start_spec() <= y < x ==> old.held().contains(y)
                &&& new.held() == old.held().insert(x)
            },
            None => {
                &&& old.is_full()
                &&& new.held() == old.held()
            },
        }
    }

    /// `new` is the pool after `free(x)` on `old`.
    pub open spec fn free_post(old: IdPool, x: u32, new: IdPool) -> bool {
        &&& new.wf()
        &&& new.start_spec() == old.start_spec()
        &&& new.end_spec() == old.end_spec()
        &&& new.held() == old.held().remove(x)
    }

    /// `new` is the pool after `occupy(x)` on `old` returned `r`.
    pub open spec fn occupy_post(old: IdPool, x: u32, new: IdPool, r: Result<(), PoolError>) -> bool {
        &&& new.wf()
        &&& new.start_spec() == old.start_spec()
        &&& new.end_spec() == old.end_spec()
        &&& (r is Ok <==> old.range().contains(x))
        &&& r is Ok ==> new.held() == old.held().insert(x)
        &&& r is Err ==> new.held() == old.held() && r == Err::<(), PoolError>(PoolError::OutOfRange)
    }

    /// Every held identifier lies in the pool's range, and the held set is finite.
    pub proof fn lemma_held_in_range(&self)
        requires
            self.wf(),
        ensures
            self.held().subset_of(self.range()),
            self.held().finite(),
            self.held().len() <= self.end_spec() - self.start_spec(),
    {
        lemma_id_range_len(self.start_spec(), self.end_spec());
        lemma_len_subset(self.held(), self.range());
    }

    /// The pool is full exactly when the number of held identifiers equals the
    /// size of its range.
    pub proof fn lemma_full_iff_count(&self)
        requires
            self.wf(),
        ensures
            self.is_full() <==> self.held().len() == self.end_spec() - self.start_spec(),
    {
        self.lemma_held_in_range();
        lemma_id_range_len(self.start_spec(), self.end_spec());
        if self.is_full() {
            assert(self.held() =~= self.range());
        }
        if self.held().len() == self.end_spec() - self.start_spec() {
            lemma_subset_equality(self.held(), self.range());
        }
    }

    /// A pool over `[start, end)` with nothing held; an `end` below `start` gives an empty range.
    pub fn new(start: u32, end: u32) -> (r: IdPool)
        ensures
            r.wf(),
            r.start_spec() == start,
            r.end_spec() == if end < start { start } else { end },
            r.held() == Set::<u32>::empty(),
    {
        let end = if end < start { start } else { end };
        let n: usize = (end - start) as usize;
        let mut used: Vec<bool> = Vec::new();
        let mut i: usize = 0;
        while i < n
            invariant
                i <= n,
                n == end - start,
                used@.len() == i,
                forall|k: int| 0 <= k < i ==> !used@[k],
            decreases n - i,
        {
            used.push(false);
            i = i + 1;
        }
        let r = IdPool { start, end, used };
        assert(r.held() =~= Set::<u32>::empty());
        r
    }

    /// Takes the lowest free identifier, or `None` when every one is held.
    pub fn allocate(&mut self) -> (r: Option<u32>)
        requires
            old(self).wf(),
        ensures
            IdPool::allocate_post(*old(self), *final(self), r),
    {
        let n: usize = self.used.len();
        let mut i: usize = 0;
        while i < n
            invariant
                self.wf(),
                *self == *old(self),
                n == self.used@.len(),
                i <= n,
                forall|k: int| 0 <= k < i ==> self.used@[k],
            decreases n - i,
        {
            if !self.used[i] {
                let ghost before = *self;
                self.used.set(i, true);
                let x: u32 = self.start + i as u32;
                proof {
                    assert forall|y: u32| before.start_spec() <= y < x implies before.held().contains(y) by {
                        assert(self.used@[(y - self.start) as int]);
                    };
                    assert(self.held() =~= before.held().insert(x));
                }
                return Some(x);
            }
            i = i + 1;
        }
        proof {
            assert forall|x: u32| #[trigger] self.range().contains(x) implies self.held().contains(x) by {
                assert(self.used@[(x - self.start) as int]);
            };
        }
        None
    }

    /// Releases `x`; nothing changes when `x` is not held.
    pub fn free(&mut self, x: u32)
        requires
            old(self).wf(),
        ensures
            IdPool::free_post(*old(self), x, *final(self)),
    {
        if self.start <= x && x < self.end {
            let i: usize = (x - self.start) as usize;
            self.used.set(i, false);
        }
        assert(self.held() =~= old(self).held().remove(x));
    }

    /// Marks `x` as held, whether or not it already was.
    pub fn occupy(&mut self, x: u32) -> (r: Result<(), PoolError>)
        requires
            old(self).wf(),
        ensures
            IdPool::occupy_post(*old(self), x, *final(self), r),
    {
        if self.start <= x && x < self.end {
            let i: usize = (x - self.start) as usize;
            self.used.set(i, true);
            assert(self.held() =~= old(self).held().insert(x));
            Ok(())
        } else {
            Err(PoolError::OutOfRange)
        }
    }

    /// Whether `x` is currently held.
    pub fn is_held(&self, x: u32) -> (r: bool)
        requires
            self.wf(),
        ensures
            r == self.held().contains(x),
    {
        if self.start <= x && x < self.end {
            self.used[(x - self.start) as usize]
        } else {
            false
        }
    }
}

} // verus!
