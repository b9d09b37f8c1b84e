use std::sync::Arc;
use vstd::prelude::*;

verus! {

/// Size in bytes of the allocation granule: every buffer allocation is
/// rounded up to a multiple of this alignment.
pub open spec fn spec_round64(n: int) -> int {
    ((n + 63) / 64) * 64
}

/// `spec_round64(n)` is the smallest multiple of 64 that is at least `n`.
pub proof fn lemma_round64_least(n: int)
    requires
        0 <= n,
    ensures
        spec_round64(n) % 64 == 0,
        n <= spec_round64(n),
        spec_round64(n) < n + 64,
{
    let q = (n + 63) / 64;
    let r = (n + 63) % 64;
    vstd::arithmetic::div_mod::lemma_fundamental_div_mod(n + 63, 64);
    vstd::arithmetic::div_mod::lemma_mod_bound(n + 63, 64);
    assert(q * 64 == n + 63 - r) by (nonlinear_arith)
        requires
            n + 63 == 64 * q + r,
    ;
    vstd::arithmetic::div_mod::lemma_mod_multiples_basic(q, 64);
}

/// Rounds a requested size up to the allocation granule.
pub fn round64(n: usize) -> (r: usize)
    requires
        n + 63 <= usize::MAX,
    ensures
        r == spec_round64(n as int),
{
    proof {
        lemma_round64_least(n as int);
    }
    ((n + 63) / 64) * 64
}

/// Relies on `Arc::clone`: the returned handle refers to the very same
/// allocation as the argument, hence to the same value.
#[verifier::external_body]
pub(crate) fn arc_dup<T>(a: &Arc<T>) -> (r: Arc<T>)
    ensures
        r == *a,
{
    Arc::clone(a)
}

/// Relies on `Arc::ptr_eq`: it returns true exactly when both handles
/// refer to the same allocation; two handles to one allocation hold
/// equal values.
#[verifier::external_body]
pub(crate) fn arc_same<T>(a: &Arc<T>, b: &Arc<T>) -> (r: bool)
    ensures
        r ==> *a == *b,
{
    Arc::ptr_eq(a, b)
}

/// A contiguous, reference-counted, immutable region of elements with a
/// logical length and a (possibly larger) allocated capacity.  Handles
/// can be compared for identity, independent of content equality.
#[derive(Debug)]
pub struct Buffer<T> {
    data: Arc<Vec<T>>,
    cap: usize,
}

impl<T> View for Buffer<T> {
    type V = Seq<T>;

    closed spec fn view(&self) -> Seq<T> {
        self.data@
    }
}

impl<T: Copy> Buffer<T> {
    /// The allocated capacity, in elements; at least the logical length.
    pub closed spec fn spec_capacity(&self) -> usize {
        self.cap
    }

    pub open spec fn wf(&self) -> bool {
        self@.len() <= self.spec_capacity()
    }

    /// Wraps a vector as an immutable buffer whose capacity is its length.
    pub fn from_vec(v: Vec<T>) -> (r: Buffer<T>)
        ensures
            r@ == v@,
            r.spec_capacity() == v@.len(),
            r.wf(),
    {
        let cap = v.len();
        Buffer { data: Arc::new(v), cap }
    }

    pub fn len(&self) -> (r: usize)
        ensures
            r == self@.len(),
    {
        (*self.data).len()
    }

    pub fn capacity(&self) -> (r: usize)
        ensures
            r == self.spec_capacity(),
    {
        self.cap
    }

    pub fn get(&self, i: usize) -> (r: T)
        requires
            i < self@.len(),
        ensures
            r == self@[i as int],
    {
        (*self.data)[i]
    }

    /// A new handle to the same allocation: zero-copy sharing.
    pub fn share(&self) -> (r: Buffer<T>)
        ensures
            r == *self,
    {
        Buffer { data: arc_dup(&self.data), cap: self.cap }
    }

    /// Identity comparison: true only when both handles refer to the same
    /// allocation (in which case they hold the same elements).
    pub fn same_object(&self, other: &Buffer<T>) -> (r: bool)
        ensures
            r ==> self@ == other@,
    {
        arc_same(&self.data, &other.data)
    }
}

/// An append-only builder for a [`Buffer`].  It grows by doubling when an
/// append outruns the allocated capacity, so reserving the exact final
/// size up front yields a single allocation of that (granule-rounded)
/// size.
pub struct BufferBuilder<T> {
    items: Vec<T>,
    cap: usize,
}

impl<T: Copy> BufferBuilder<T> {
    pub closed spec fn view(&self) -> Seq<T> {
        self.items@
    }

    pub closed spec fn spec_capacity(&self) -> usize {
        self.cap
    }

    pub open spec fn wf(&self) -> bool {
        self@.len() <= self.spec_capacity()
    }

    /// A builder whose initial allocation is `hint` elements, rounded up
    /// to the allocation granule.
    pub fn new(hint: usize) -> (r: BufferBuilder<T>)
        requires
            hint + 63 <= usize::MAX,
        ensures
            r@ == Seq::<T>::empty(),
            r.spec_capacity() == spec_round64(hint as int),
            r.wf(),
    {
        proof {
            lemma_round64_least(hint as int);
        }
        BufferBuilder { items: Vec::new(), cap: round64(hint) }
    }

    pub fn len(&self) -> (r: usize)
        ensures
            r == self@.len(),
    {
        self.items.len()
    }

    /// Grows the allocation so that `additional` more elements fit.  When
    /// they already fit, the capacity is left untouched.
    fn reserve_for(&mut self, additional: usize)
        requires
            old(self).wf(),
            old(self)@.len() + additional + 63 <= usize::MAX,
        ensures
            final(self)@ == old(self)@,
            final(self).wf(),
            old(self)@.len() + additional <= final(self).spec_capacity(),
            old(self)@.len() + additional <= old(self).spec_capacity() ==> final(self).spec_capacity() == old(self).spec_capacity(),
    {
        let needed = self.items.len() + additional;
        if needed <= self.cap {
            return ;
        }
        let mut target = needed;
        if self.cap <= (usize::MAX - 63) / 2 && self.cap * 2 > target {
            target = self.cap * 2;
        }
        proof {
            lemma_round64_least(target as int);
        }
        self.cap = round64(target);
    }

    pub fn append(&mut self, v: T)
        requires
            old(self).wf(),
            old(self)@.len() + 64 <= usize::MAX,
        ensures
            final(self)@ == old(self)@.push(v),
            final(self).wf(),
            old(self)@.len() + 1 <= old(self).spec_capacity() ==> final(self).spec_capacity()
                == old(self).spec_capacity(),
    {
        self.reserve_for(1);
        self.items.push(v);
    }

    /// Appends the elements `src[start..end]`, growing at most once.
    pub fn append_from(&mut self, src: &Buffer<T>, start: usize, end: usize)
        requires
            old(self).wf(),
            start <= end <= src@.len(),
            old(self)@.len() + (end - start) + 63 <= usize::MAX,
        ensures
            final(self)@ == old(self)@ + src@.subrange(start as int, end as int),
            final(self).wf(),
            old(self)@.len() + (end - start) <= old(self).spec_capacity() ==> final(self).spec_capacity() == old(self).spec_capacity(),
    {
        self.reserve_for(end - start);
        let ghost base = self@;
        let ghost cap0 = self.spec_capacity();
        let mut i: usize = start;
        while i < end
            invariant
                start <= i <= end <= src@.len(),
                self@ == base + src@.subrange(start as int, i as int),
                self@.len() == base.len() + (i - start),
                self.spec_capacity() == cap0,
                base.len() + (end - start) <= old(self).spec_capacity() ==> cap0 == old(self).spec_capacity(),
                base.len() + (end - start) <= self.spec_capacity(),
                self.wf(),
            decreases end - i,
        {
            let v = src.get(i);
            self.items.push(v);
            proof {
                assert(self@ == base + src@.subrange(start as int, i + 1 as int));
            }
            i = i + 1;
        }
        proof {
            assert(self@ == old(self)@ + src@.subrange(start as int, end as int));
        }
    }

    /// Freezes the builder into an immutable buffer, keeping the
    /// allocated capacity.
    pub fn finish(self) -> (r: Buffer<T>)
        requires
            self.wf(),
        ensures
            r@ == self@,
            r.spec_capacity() == self.spec_capacity(),
            r.wf(),
    {
        let cap = self.cap;
        Buffer { data: Arc::new(self.items), cap }
    }
}

} // verus!
