use std::sync::Arc;
use vstd::prelude::*;

use crate::buffer::arc_dup;

verus! {

/// A validity mask: one flag per logical element, `true` = valid /
/// non-null.  Like a buffer it is reference counted and immutable once
/// published, so cloning a handle is zero-copy.
#[derive(Debug)]
pub struct Bitmap {
    bits: Arc<Vec<bool>>,
}

impl View for Bitmap {
    type V = Seq<bool>;

    closed spec fn view(&self) -> Seq<bool> {
        self.bits@
    }
}

impl Bitmap {
    pub fn from_vec(v: Vec<bool>) -> (r: Bitmap)
        ensures
            r@ == v@,
    {
        Bitmap { bits: Arc::new(v) }
    }

    pub fn len(&self) -> (r: usize)
        ensures
            r == self@.len(),
    {
        (*self.bits).len()
    }

    pub fn is_set(&self, i: usize) -> (r: bool)
        requires
            i < self@.len(),
        ensures
            r == self@[i as int],
    {
        (*self.bits)[i]
    }

    /// A new handle to the same mask: zero-copy sharing.
    pub fn share(&self) -> (r: Bitmap)
        ensures
            r == *self,
    {
        Bitmap { bits: arc_dup(&self.bits) }
    }

    /// The elementwise AND of two masks of equal length: the merged mask
    /// marks an element valid exactly when both inputs do.
    pub fn and(&self, other: &Bitmap) -> (r: Bitmap)
        requires
            self@.len() == other@.len(),
        ensures
            r@.len() == self@.len(),
            forall|i: int| 0 <= i < self@.len() ==> r@[i] == (self@[i] && other@[i]),
    {
        let n = self.len();
        let mut out: Vec<bool> = Vec::new();
        let mut i: usize = 0;
        while i < n
            invariant
                n == self@.len() == other@.len(),
                i <= n,
                out@.len() == i,
                forall|j: int| 0 <= j < i ==> out@[j] == (self@[j] && other@[j]),
            decreases n - i,
        {
            out.push(self.is_set(i) && other.is_set(i));
            i = i + 1;
        }
        Bitmap { bits: Arc::new(out) }
    }
}

} // verus!
