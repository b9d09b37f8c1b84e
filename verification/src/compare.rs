use vstd::prelude::*;

use crate::array::{ArrayData, Val};
use crate::datatype::same_type;

verus! {

/// Whether the element at logical position `i` is null in the view
/// (for a dictionary, a null key or a null dictionary entry).
#[verifier::loop_isolation(false)]
fn elem_is_null(a: &ArrayData, i: usize) -> (r: bool)
    requires
        a.wf(),
        i < a.spec_len(),
    ensures
        r == (a@[i as int] == Val::Null),
    decreases a,
{
    proof {
        a.lemma_view_len();
    }
    if !a.is_valid(i) {
        return true;
    }
    match a {
        ArrayData::Dictionary { keys, values } => {
            proof {
                assert((**keys).valid_idx(i as int));
                (**values).lemma_view_len();
            }
            let k = keys.key_int(i);
            proof {
                assert(0 <= k as int && (k as int) < (**values).spec_len());
            }
            elem_is_null(values, k as usize)
        },
        _ => false,
    }
}

/// Whether element `i` of `a` and element `j` of `b` are the same
/// logical value.  Both arrays must share one logical type.
#[verifier::loop_isolation(false)]
fn elem_eq(a: &ArrayData, i: usize, b: &ArrayData, j: usize) -> (r: bool)
    requires
        a.wf(),
        b.wf(),
        a.dtype() == b.dtype(),
        i < a.spec_len(),
        j < b.spec_len(),
    ensures
        r == (a@[i as int] == b@[j as int]),
    decreases a,
{
    proof {
        a.lemma_view_len();
        b.lemma_view_len();
    }
    let av = a.is_valid(i);
    let bv = b.is_valid(j);
    match (a, b) {
        (ArrayData::Int8 { .. }, ArrayData::Int8 { .. }) => {
            if av && bv {
                a.key_int(i) == b.key_int(j)
            } else {
                av == bv
            }
        },
        (ArrayData::Int32 { .. }, ArrayData::Int32 { .. }) => {
            if av && bv {
                a.key_int(i) == b.key_int(j)
            } else {
                av == bv
            }
        },
        (ArrayData::Int64 { .. }, ArrayData::Int64 { .. }) => {
            if av && bv {
                a.key_int(i) == b.key_int(j)
            } else {
                av == bv
            }
        },
        (
            ArrayData::Boolean { offset: ao, values: avals, .. },
            ArrayData::Boolean { offset: bo, values: bvals, .. },
        ) => {
            if av && bv {
                avals.get(*ao + i) == bvals.get(*bo + j)
            } else {
                av == bv
            }
        },
        (
            ArrayData::Utf8 { offset: ao, offsets: aoffs, values: avals, .. },
            ArrayData::Utf8 { offset: bo, offsets: boffs, values: bvals, .. },
        ) => {
            if av && bv {
                let alo = aoffs.get(*ao + i) as usize;
                let ahi = aoffs.get(*ao + i + 1) as usize;
                let blo = boffs.get(*bo + j) as usize;
                let bhi = boffs.get(*bo + j + 1) as usize;
                bytes_eq(avals, alo, ahi, bvals, blo, bhi)
            } else {
                av == bv
            }
        },
        (
            ArrayData::LargeUtf8 { offset: ao, offsets: aoffs, values: avals, .. },
            ArrayData::LargeUtf8 { offset: bo, offsets: boffs, values: bvals, .. },
        ) => {
            if av && bv {
                let alo = aoffs.get(*ao + i) as usize;
                let ahi = aoffs.get(*ao + i + 1) as usize;
                let blo = boffs.get(*bo + j) as usize;
                let bhi = boffs.get(*bo + j + 1) as usize;
                bytes_eq(avals, alo, ahi, bvals, blo, bhi)
            } else {
                av == bv
            }
        },
        (
            ArrayData::Dictionary { keys: ak, values: avs },
            ArrayData::Dictionary { keys: bk, values: bvs },
        ) => {
            proof {
                assert((**avs).dtype() == (**bvs).dtype());
                (**avs).lemma_view_len();
                (**bvs).lemma_view_len();
            }
            if av && bv {
                let ka = ak.key_int(i);
                let kb = bk.key_int(j);
                proof {
                    assert((**ak).valid_idx(i as int) && (**bk).valid_idx(j as int));
                    assert(0 <= ka as int && (ka as int) < (**avs).spec_len());
                    assert(0 <= kb as int && (kb as int) < (**bvs).spec_len());
                }
                elem_eq(avs, ka as usize, bvs, kb as usize)
            } else if !av && !bv {
                true
            } else if av {
                let ka = ak.key_int(i);
                proof {
                    assert((**ak).valid_idx(i as int));
                    assert(0 <= ka as int && (ka as int) < (**avs).spec_len());
                }
                elem_is_null(avs, ka as usize)
            } else {
                let kb = bk.key_int(j);
                proof {
                    assert((**bk).valid_idx(j as int));
                    assert(0 <= kb as int && (kb as int) < (**bvs).spec_len());
                }
                elem_is_null(bvs, kb as usize)
            }
        },
        _ => {
            proof {
                assert(false);
            }
            false
        },
    }
}

/// Byte-range equality between two buffers.
#[verifier::loop_isolation(false)]
fn bytes_eq(
    a: &crate::buffer::Buffer<u8>,
    alo: usize,
    ahi: usize,
    b: &crate::buffer::Buffer<u8>,
    blo: usize,
    bhi: usize,
) -> (r: bool)
    requires
        alo <= ahi <= a@.len(),
        blo <= bhi <= b@.len(),
    ensures
        r == (a@.subrange(alo as int, ahi as int) == b@.subrange(blo as int, bhi as int)),
{
    if ahi - alo != bhi - blo {
        proof {
            assert(a@.subrange(alo as int, ahi as int).len() != b@.subrange(
                blo as int,
                bhi as int,
            ).len());
        }
        return false;
    }
    let m = ahi - alo;
    let mut k: usize = 0;
    while k < m
        invariant
            k <= m,
            forall|t: int| 0 <= t < k ==> #[trigger] a@[alo + t] == b@[blo + t],
        decreases m - k,
    {
        if a.get(alo + k) != b.get(blo + k) {
            proof {
                assert(a@.subrange(alo as int, ahi as int)[k as int] != b@.subrange(
                    blo as int,
                    bhi as int,
                )[k as int]);
            }
            return false;
        }
        k = k + 1;
    }
    proof {
        assert forall|t: int|
            0 <= t < m implies a@.subrange(alo as int, ahi as int)[t] == b@.subrange(
            blo as int,
            bhi as int,
        )[t] by {
            assert(a@[alo + t] == b@[blo + t]);
        }
        assert(a@.subrange(alo as int, ahi as int) =~= b@.subrange(blo as int, bhi as int));
    }
    true
}

impl ArrayData {
    /// Logical equality: the same data type and the same sequence of
    /// logical values, independent of physical layout details such as
    /// offsets, buffer sharing or the presence of an all-valid mask.
    #[verifier::loop_isolation(false)]
    pub fn equals(&self, other: &ArrayData) -> (r: bool)
        requires
            self.wf(),
            other.wf(),
        ensures
            r == (self.dtype() == other.dtype() && self@ == other@),
    {
        proof {
            self.lemma_view_len();
            other.lemma_view_len();
        }
        let td = self.data_type();
        let od = other.data_type();
        if !same_type(&td, &od) {
            return false;
        }
        let n = self.len();
        if n != other.len() {
            return false;
        }
        let mut i: usize = 0;
        while i < n
            invariant
                i <= n,
                forall|t: int| 0 <= t < i ==> self@[t] == other@[t],
            decreases n - i,
        {
            if !elem_eq(self, i, other, i) {
                return false;
            }
            i = i + 1;
        }
        proof {
            assert(self@ =~= other@);
        }
        true
    }
}

} // verus!
