use vstd::prelude::*;

use crate::array::ArrayData;
use crate::buffer::{lemma_round64_least, spec_round64};
use crate::kernel::{
    concat_views, exact_upto, hint_upto, lemma_views_index, lemma_views_len, live_exact,
    live_hint, str_exact, str_hint, sum_lens_upto, views_upto,
};

verus! {

/// Concatenating a single array is the identity on the logical view:
/// the combined view of a one-element input sequence is exactly that
/// array's own view.
pub proof fn lemma_concat_single(a: ArrayData)
    ensures
        concat_views(seq![a]) == a@,
{
    let s = seq![a];
    assert(views_upto(s, 0) == Seq::<crate::array::Val>::empty());
    assert(concat_views(s) == views_upto(s, 0) + s[0]@);
    assert(concat_views(s) =~= a@);
}

/// Concatenating zero-copy slices reflects only the live sub-ranges:
/// element `k` of slice `p` in the combined view is element
/// `starts[p] + k` of the original array `p`, never any other part of
/// the shared storage.
pub proof fn lemma_concat_of_slices(
    sliced: Seq<ArrayData>,
    orig: Seq<ArrayData>,
    starts: Seq<int>,
    p: int,
    k: int,
)
    requires
        sliced.len() == orig.len(),
        sliced.len() == starts.len(),
        forall|i: int|
            0 <= i < sliced.len() ==> 0 <= starts[i] && starts[i] + (#[trigger] sliced[i]@.len())
                <= orig[i]@.len(),
        forall|i: int|
            0 <= i < sliced.len() ==> (#[trigger] sliced[i]@) == orig[i]@.subrange(
                starts[i],
                starts[i] + sliced[i]@.len(),
            ),
        0 <= p < sliced.len(),
        0 <= k < sliced[p]@.len(),
    ensures
        concat_views(sliced)[sum_lens_upto(sliced, p) + k] == orig[p]@[starts[p] + k],
{
    lemma_views_index(sliced, sliced.len() as int, p, k);
    assert(sliced[p]@[k] == orig[p]@.subrange(starts[p], starts[p] + sliced[p]@.len())[k]);
}

/// An array whose live byte range runs to the end of its values buffer:
/// nothing of the buffer lies beyond the last live offset.
pub open spec fn live_is_suffix(a: ArrayData) -> bool {
    match a {
        ArrayData::Utf8 { len, offset, offsets, values, .. } => offsets@[offset + len]
            == values@.len(),
        ArrayData::LargeUtf8 { len, offset, offsets, values, .. } => offsets@[offset + len]
            == values@.len(),
        _ => true,
    }
}

pub proof fn lemma_hint_is_exact_upto(s: Seq<ArrayData>, n: int)
    requires
        0 <= n <= s.len(),
        forall|i: int| 0 <= i < n ==> (#[trigger] s[i]).wf(),
        forall|i: int| 0 <= i < n ==> live_is_suffix(#[trigger] s[i]),
        forall|i: int| 0 <= i < n ==> (#[trigger] s[i]).is_string(),
    ensures
        hint_upto(s, n) == exact_upto(s, n),
    decreases n,
{
    if 0 < n {
        lemma_hint_is_exact_upto(s, n - 1);
        assert(live_hint(s[n - 1]) == live_exact(s[n - 1]));
    }
}

/// Exact capacity: when every input's live range is a suffix of its
/// values buffer, the precomputed size hint equals the exact number of
/// live value bytes, so the allocation the concatenation makes —
/// the hint rounded up to the 64-byte granule — is the smallest
/// granule-aligned size that holds those bytes.  No doubling-growth
/// overshoot can occur.
pub proof fn lemma_exact_string_capacity(s: Seq<ArrayData>)
    requires
        forall|i: int| 0 <= i < s.len() ==> (#[trigger] s[i]).wf(),
        forall|i: int| 0 <= i < s.len() ==> live_is_suffix(#[trigger] s[i]),
        forall|i: int| 0 <= i < s.len() ==> (#[trigger] s[i]).is_string(),
    ensures
        str_hint(s) == str_exact(s),
        spec_round64(str_hint(s)) % 64 == 0,
        str_exact(s) <= spec_round64(str_hint(s)) < str_exact(s) + 64,
{
    lemma_hint_is_exact_upto(s, s.len() as int);
    crate::kernel::lemma_exact_le_hint(s, s.len() as int);
    lemma_round64_least(str_hint(s));
}

} // verus!
