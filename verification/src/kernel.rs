use std::sync::Arc;
use vstd::prelude::*;

use crate::array::{same_data, ArrayData, Val};
use crate::bitmap::Bitmap;
use crate::buffer::arc_dup;
use crate::error::ConcatError;
use crate::buffer::{spec_round64, Buffer, BufferBuilder};
use crate::datatype::DataType;

verus! {

/// Every input shares the logical type of the first one.
pub open spec fn all_same_type(s: Seq<ArrayData>) -> bool {
    forall|i: int| 0 <= i < s.len() ==> (#[trigger] s[i].dtype()) == s[0].dtype()
}

/// Sum of the logical lengths of the first `n` arrays.
pub open spec fn sum_lens_upto(s: Seq<ArrayData>, n: int) -> int
    decreases n,
{
    if n <= 0 {
        0
    } else {
        sum_lens_upto(s, n - 1) + s[n - 1].spec_len()
    }
}

pub open spec fn sum_lens(s: Seq<ArrayData>) -> int {
    sum_lens_upto(s, s.len() as int)
}

/// The concatenation of the logical views of the first `n` arrays.
pub open spec fn views_upto(s: Seq<ArrayData>, n: int) -> Seq<Val>
    decreases n,
{
    if n <= 0 {
        Seq::empty()
    } else {
        views_upto(s, n - 1) + s[n - 1]@
    }
}

/// The concatenation of the logical views of all the arrays, in order.
pub open spec fn concat_views(s: Seq<ArrayData>) -> Seq<Val> {
    views_upto(s, s.len() as int)
}

pub proof fn lemma_sum_lens_mono(s: Seq<ArrayData>, a: int, b: int)
    requires
        0 <= a <= b,
    ensures
        sum_lens_upto(s, a) <= sum_lens_upto(s, b),
        0 <= sum_lens_upto(s, a),
    decreases b,
{
    if a < b {
        lemma_sum_lens_mono(s, a, b - 1);
    } else {
        if 0 < a {
            lemma_sum_lens_mono(s, 0, a - 1);
        }
    }
}

pub proof fn lemma_views_len(s: Seq<ArrayData>, n: int)
    requires
        0 <= n,
    ensures
        views_upto(s, n).len() == sum_lens_upto(s, n),
    decreases n,
{
    if 0 < n {
        lemma_views_len(s, n - 1);
        s[n - 1].lemma_view_len();
    }
}

/// The live value bytes a string array claims when sized by its first
/// offset: everything of the values buffer from that offset on.
pub open spec fn live_hint(a: ArrayData) -> int {
    match a {
        ArrayData::Utf8 { offset, offsets, values, .. } => values@.len() - offsets@[offset as int],
        ArrayData::LargeUtf8 { offset, offsets, values, .. } => values@.len()
            - offsets@[offset as int],
        _ => 0,
    }
}

/// The exact live value bytes of a string array: the span between the
/// first and the last live offset.
pub open spec fn live_exact(a: ArrayData) -> int {
    match a {
        ArrayData::Utf8 { len, offset, offsets, .. } => offsets@[offset + len]
            - offsets@[offset as int],
        ArrayData::LargeUtf8 { len, offset, offsets, .. } => offsets@[offset + len]
            - offsets@[offset as int],
        _ => 0,
    }
}

pub open spec fn hint_upto(s: Seq<ArrayData>, n: int) -> int
    decreases n,
{
    if n <= 0 {
        0
    } else {
        hint_upto(s, n - 1) + live_hint(s[n - 1])
    }
}

/// The value-buffer size hint for concatenating string arrays: the sum
/// of each input's live byte span.
pub open spec fn str_hint(s: Seq<ArrayData>) -> int {
    hint_upto(s, s.len() as int)
}

pub open spec fn exact_upto(s: Seq<ArrayData>, n: int) -> int
    decreases n,
{
    if n <= 0 {
        0
    } else {
        exact_upto(s, n - 1) + live_exact(s[n - 1])
    }
}

/// The exact number of value bytes the concatenated string output holds.
pub open spec fn str_exact(s: Seq<ArrayData>) -> int {
    exact_upto(s, s.len() as int)
}

pub proof fn lemma_hint_mono(s: Seq<ArrayData>, a: int, b: int)
    requires
        0 <= a <= b,
        forall|i: int| 0 <= i < b ==> (#[trigger] s[i]).wf(),
    ensures
        hint_upto(s, a) <= hint_upto(s, b),
        0 <= hint_upto(s, a),
    decreases b,
{
    if a < b {
        lemma_hint_mono(s, a, b - 1);
    } else {
        if 0 < a {
            lemma_hint_mono(s, 0, a - 1);
        }
    }
}

/// Each partial exact total is at most the corresponding hint total, and
/// both are nonnegative; for an array whose live range runs to the end
/// of its values buffer the two coincide.
pub proof fn lemma_exact_le_hint(s: Seq<ArrayData>, n: int)
    requires
        0 <= n,
        forall|i: int| 0 <= i < n ==> (#[trigger] s[i]).wf(),
    ensures
        0 <= exact_upto(s, n) <= hint_upto(s, n),
        forall|a_: int, b_: int|
            0 <= a_ <= b_ <= n ==> exact_upto(s, a_) <= exact_upto(s, b_),
    decreases n,
{
    if 0 < n {
        lemma_exact_le_hint(s, n - 1);
        assert forall|a_: int, b_: int|
            0 <= a_ <= b_ <= n implies exact_upto(s, a_) <= exact_upto(s, b_) by {
            if b_ == n && a_ < n {
                assert(exact_upto(s, a_) <= exact_upto(s, n - 1));
                assert(s[n - 1].wf());
                assert(s[n - 1] matches ArrayData::Utf8 { len, offset, offsets, .. }
                    ==> offsets@[offset as int] <= offsets@[offset + len]);
                assert(s[n - 1] matches ArrayData::LargeUtf8 { len, offset, offsets, .. }
                    ==> offsets@[offset as int] <= offsets@[offset + len]);
                assert(0 <= live_exact(s[n - 1]));
            }
        }
    }
}

/// The exact number of value bytes that the output of a string
/// concatenation must hold, computed from the storage records alone:
/// for each input, the length of its values buffer minus its first live
/// offset, summed over the inputs.
pub fn compute_str_values_length(arrays: &Vec<ArrayData>) -> (r: usize)
    requires
        forall|i: int| 0 <= i < arrays@.len() ==> (#[trigger] arrays@[i]).wf(),
        forall|i: int| 0 <= i < arrays@.len() ==> (#[trigger] arrays@[i]).is_string(),
        str_hint(arrays@) <= usize::MAX,
    ensures
        r == str_hint(arrays@),
{
    let n = arrays.len();
    let mut total: usize = 0;
    let mut i: usize = 0;
    while i < n
        invariant
            n == arrays@.len(),
            i <= n,
            forall|k: int| 0 <= k < n ==> (#[trigger] arrays@[k]).wf(),
            forall|k: int| 0 <= k < n ==> (#[trigger] arrays@[k]).is_string(),
            str_hint(arrays@) <= usize::MAX,
            total == hint_upto(arrays@, i as int),
        decreases n - i,
    {
        proof {
            lemma_hint_mono(arrays@, i + 1, n as int);
        }
        let a = &arrays[i];
        let piece: usize = match a {
            ArrayData::Utf8 { offset, offsets, values, .. } => {
                let buf_len = values.len();
                let first = offsets.get(*offset);
                buf_len - (first as usize)
            },
            ArrayData::LargeUtf8 { offset, offsets, values, .. } => {
                let buf_len = values.len();
                let first = offsets.get(*offset);
                buf_len - (first as usize)
            },
            _ => {
                proof {
                    assert(false);
                }
                0
            },
        };
        total = total + piece;
        i = i + 1;
    }
    total
}

pub open spec fn built_i8(vals: Seq<i8>, bits: Seq<bool>) -> Seq<Val> {
    Seq::new(bits.len(), |pos: int| if bits[pos] { Val::I8(vals[pos]) } else { Val::Null })
}

pub open spec fn built_i32(vals: Seq<i32>, bits: Seq<bool>) -> Seq<Val> {
    Seq::new(bits.len(), |pos: int| if bits[pos] { Val::I32(vals[pos]) } else { Val::Null })
}

pub open spec fn built_i64(vals: Seq<i64>, bits: Seq<bool>) -> Seq<Val> {
    Seq::new(bits.len(), |pos: int| if bits[pos] { Val::I64(vals[pos]) } else { Val::Null })
}

pub open spec fn built_bool(vals: Seq<bool>, bits: Seq<bool>) -> Seq<Val> {
    Seq::new(bits.len(), |pos: int| if bits[pos] { Val::BoolV(vals[pos]) } else { Val::Null })
}

#[verifier::loop_isolation(false)]
fn concat_int64(arrays: &Vec<ArrayData>) -> (r: ArrayData)
    requires
        forall|i: int| 0 <= i < arrays@.len() ==> (#[trigger] arrays@[i]).wf(),
        forall|i: int|
            0 <= i < arrays@.len() ==> (#[trigger] arrays@[i]) matches ArrayData::Int64 { .. },
        sum_lens(arrays@) <= usize::MAX,
    ensures
        r.wf(),
        r.dtype() == DataType::Int64,
        r.spec_offset() == 0,
        r.spec_len() == sum_lens(arrays@),
        r@ == concat_views(arrays@),
{
    let n = arrays.len();
    let mut vals: Vec<i64> = Vec::new();
    let mut bits: Vec<bool> = Vec::new();
    let mut use_mask = false;
    let mut p: usize = 0;
    while p < n
        invariant
            n == arrays@.len(),
            p <= n,
            forall|i: int| 0 <= i < n ==> (#[trigger] arrays@[i]).wf(),
            forall|i: int| 0 <= i < n ==> (#[trigger] arrays@[i]) matches ArrayData::Int64 { .. },
            sum_lens(arrays@) <= usize::MAX,
            vals@.len() == sum_lens_upto(arrays@, p as int),
            bits@.len() == vals@.len(),
            built_i64(vals@, bits@) == views_upto(arrays@, p as int),
            !use_mask ==> (forall|t: int| 0 <= t < bits@.len() ==> bits@[t]),
        decreases n - p,
    {
        let a = &arrays[p];
        if a.has_validity() {
            use_mask = true;
        }
        let m = a.len();
        proof {
            a.lemma_view_len();
            lemma_sum_lens_mono(arrays@, p + 1, n as int);
        }
        let mut j: usize = 0;
        while j < m
            invariant
                n == arrays@.len(),
                p < n,
                forall|i: int| 0 <= i < n ==> (#[trigger] arrays@[i]).wf(),
                forall|i: int|
                    0 <= i < n ==> (#[trigger] arrays@[i]) matches ArrayData::Int64 { .. },
                sum_lens(arrays@) <= usize::MAX,
                sum_lens_upto(arrays@, p + 1) <= sum_lens(arrays@),
                m == arrays@[p as int].spec_len(),
                m == arrays@[p as int]@.len(),
                j <= m,
                vals@.len() == sum_lens_upto(arrays@, p as int) + j,
                bits@.len() == vals@.len(),
                built_i64(vals@, bits@) == views_upto(arrays@, p as int) + arrays@[
                    p as int
                ]@.subrange(0, j as int),
                arrays@[p as int].has_mask() ==> use_mask,
                !use_mask ==> (forall|t: int| 0 <= t < bits@.len() ==> bits@[t]),
            decreases m - j,
        {
            let b = a.is_valid(j);
            let v: i64 = match a {
                ArrayData::Int64 { offset, values, .. } => values.get(*offset + j),
                _ => {
                    proof {
                        assert(false);
                    }
                    0
                },
            };
            let ghost ovals = vals@;
            let ghost obits = bits@;
            vals.push(v);
            bits.push(b);
            proof {
                lemma_views_len(arrays@, p as int);
                assert(!arrays@[p as int].has_mask() ==> b);
                let ghost lhs = built_i64(vals@, bits@);
                let ghost rhs = views_upto(arrays@, p as int) + arrays@[p as int]@.subrange(
                    0,
                    j + 1,
                );
                assert(lhs.len() == rhs.len());
                assert(lhs[sum_lens_upto(arrays@, p as int) + j] == rhs[sum_lens_upto(
                    arrays@,
                    p as int,
                ) + j]);
                assert forall|pos: int| 0 <= pos < lhs.len() implies lhs[pos] == rhs[pos] by {
                    if pos < obits.len() {
                        assert(built_i64(ovals, obits)[pos] == lhs[pos]);
                    }
                }
                assert(lhs =~= rhs);
            }
            j = j + 1;
        }
        proof {
            assert(arrays@[p as int]@.subrange(0, m as int) =~= arrays@[p as int]@);
        }
        p = p + 1;
    }
    let total = vals.len();
    let nulls = if use_mask {
        Option::Some(Bitmap::from_vec(bits))
    } else {
        Option::None
    };
    let r = ArrayData::Int64 { len: total, offset: 0, values: Buffer::from_vec(vals), nulls };
    proof {
        r.lemma_view_len();
        assert(r@ =~= concat_views(arrays@));
    }
    r
}

#[verifier::loop_isolation(false)]
fn concat_int8(arrays: &Vec<ArrayData>) -> (r: ArrayData)
    requires
        forall|i: int| 0 <= i < arrays@.len() ==> (#[trigger] arrays@[i]).wf(),
        forall|i: int|
            0 <= i < arrays@.len() ==> (#[trigger] arrays@[i]) matches ArrayData::Int8 { .. },
        sum_lens(arrays@) <= usize::MAX,
    ensures
        r.wf(),
        r.dtype() == DataType::Int8,
        r.spec_offset() == 0,
        r.spec_len() == sum_lens(arrays@),
        r@ == concat_views(arrays@),
{
    let n = arrays.len();
    let mut vals: Vec<i8> = Vec::new();
    let mut bits: Vec<bool> = Vec::new();
    let mut use_mask = false;
    let mut p: usize = 0;
    while p < n
        invariant
            n == arrays@.len(),
            p <= n,
            forall|i: int| 0 <= i < n ==> (#[trigger] arrays@[i]).wf(),
            forall|i: int| 0 <= i < n ==> (#[trigger] arrays@[i]) matches ArrayData::Int8 { .. },
            sum_lens(arrays@) <= usize::MAX,
            vals@.len() == sum_lens_upto(arrays@, p as int),
            bits@.len() == vals@.len(),
            built_i8(vals@, bits@) == views_upto(arrays@, p as int),
            !use_mask ==> (forall|t: int| 0 <= t < bits@.len() ==> bits@[t]),
        decreases n - p,
    {
        let a = &arrays[p];
        if a.has_validity() {
            use_mask = true;
        }
        let m = a.len();
        proof {
            a.lemma_view_len();
            lemma_sum_lens_mono(arrays@, p + 1, n as int);
        }
        let mut j: usize = 0;
        while j < m
            invariant
                n == arrays@.len(),
                p < n,
                forall|i: int| 0 <= i < n ==> (#[trigger] arrays@[i]).wf(),
                forall|i: int|
                    0 <= i < n ==> (#[trigger] arrays@[i]) matches ArrayData::Int8 { .. },
                sum_lens(arrays@) <= usize::MAX,
                sum_lens_upto(arrays@, p + 1) <= sum_lens(arrays@),
                m == arrays@[p as int].spec_len(),
                m == arrays@[p as int]@.len(),
                j <= m,
                vals@.len() == sum_lens_upto(arrays@, p as int) + j,
                bits@.len() == vals@.len(),
                built_i8(vals@, bits@) == views_upto(arrays@, p as int) + arrays@[
                    p as int
                ]@.subrange(0, j as int),
                arrays@[p as int].has_mask() ==> use_mask,
                !use_mask ==> (forall|t: int| 0 <= t < bits@.len() ==> bits@[t]),
            decreases m - j,
        {
            let b = a.is_valid(j);
            let v: i8 = match a {
                ArrayData::Int8 { offset, values, .. } => values.get(*offset + j),
                _ => {
                    proof {
                        assert(false);
                    }
                    0
                },
            };
            let ghost ovals = vals@;
            let ghost obits = bits@;
            vals.push(v);
            bits.push(b);
            proof {
                lemma_views_len(arrays@, p as int);
                assert(!arrays@[p as int].has_mask() ==> b);
                let ghost lhs = built_i8(vals@, bits@);
                let ghost rhs = views_upto(arrays@, p as int) + arrays@[p as int]@.subrange(
                    0,
                    j + 1,
                );
                assert(lhs.len() == rhs.len());
                assert(lhs[sum_lens_upto(arrays@, p as int) + j] == rhs[sum_lens_upto(
                    arrays@,
                    p as int,
                ) + j]);
                assert forall|pos: int| 0 <= pos < lhs.len() implies lhs[pos] == rhs[pos] by {
                    if pos < obits.len() {
                        assert(built_i8(ovals, obits)[pos] == lhs[pos]);
                    }
                }
                assert(lhs =~= rhs);
            }
            j = j + 1;
        }
        proof {
            assert(arrays@[p as int]@.subrange(0, m as int) =~= arrays@[p as int]@);
        }
        p = p + 1;
    }
    let total = vals.len();
    let nulls = if use_mask {
        Option::Some(Bitmap::from_vec(bits))
    } else {
        Option::None
    };
    let r = ArrayData::Int8 { len: total, offset: 0, values: Buffer::from_vec(vals), nulls };
    proof {
        r.lemma_view_len();
        assert(r@ =~= concat_views(arrays@));
    }
    r
}

#[verifier::loop_isolation(false)]
fn concat_int32(arrays: &Vec<ArrayData>) -> (r: ArrayData)
    requires
        forall|i: int| 0 <= i < arrays@.len() ==> (#[trigger] arrays@[i]).wf(),
        forall|i: int|
            0 <= i < arrays@.len() ==> (#[trigger] arrays@[i]) matches ArrayData::Int32 { .. },
        sum_lens(arrays@) <= usize::MAX,
    ensures
        r.wf(),
        r.dtype() == DataType::Int32,
        r.spec_offset() == 0,
        r.spec_len() == sum_lens(arrays@),
        r@ == concat_views(arrays@),
{
    let n = arrays.len();
    let mut vals: Vec<i32> = Vec::new();
    let mut bits: Vec<bool> = Vec::new();
    let mut use_mask = false;
    let mut p: usize = 0;
    while p < n
        invariant
            n == arrays@.len(),
            p <= n,
            forall|i: int| 0 <= i < n ==> (#[trigger] arrays@[i]).wf(),
            forall|i: int| 0 <= i < n ==> (#[trigger] arrays@[i]) matches ArrayData::Int32 { .. },
            sum_lens(arrays@) <= usize::MAX,
            vals@.len() == sum_lens_upto(arrays@, p as int),
            bits@.len() == vals@.len(),
            built_i32(vals@, bits@) == views_upto(arrays@, p as int),
            !use_mask ==> (forall|t: int| 0 <= t < bits@.len() ==> bits@[t]),
        decreases n - p,
    {
        let a = &arrays[p];
        if a.has_validity() {
            use_mask = true;
        }
        let m = a.len();
        proof {
            a.lemma_view_len();
            lemma_sum_lens_mono(arrays@, p + 1, n as int);
        }
        let mut j: usize = 0;
        while j < m
            invariant
                n == arrays@.len(),
                p < n,
                forall|i: int| 0 <= i < n ==> (#[trigger] arrays@[i]).wf(),
                forall|i: int|
                    0 <= i < n ==> (#[trigger] arrays@[i]) matches ArrayData::Int32 { .. },
                sum_lens(arrays@) <= usize::MAX,
                sum_lens_upto(arrays@, p + 1) <= sum_lens(arrays@),
                m == arrays@[p as int].spec_len(),
                m == arrays@[p as int]@.len(),
                j <= m,
                vals@.len() == sum_lens_upto(arrays@, p as int) + j,
                bits@.len() == vals@.len(),
                built_i32(vals@, bits@) == views_upto(arrays@, p as int) + arrays@[
                    p as int
                ]@.subrange(0, j as int),
                arrays@[p as int].has_mask() ==> use_mask,
                !use_mask ==> (forall|t: int| 0 <= t < bits@.len() ==> bits@[t]),
            decreases m - j,
        {
            let b = a.is_valid(j);
            let v: i32 = match a {
                ArrayData::Int32 { offset, values, .. } => values.get(*offset + j),
                _ => {
                    proof {
                        assert(false);
                    }
                    0
                },
            };
            let ghost ovals = vals@;
            let ghost obits = bits@;
            vals.push(v);
            bits.push(b);
            proof {
                lemma_views_len(arrays@, p as int);
                assert(!arrays@[p as int].has_mask() ==> b);
                let ghost lhs = built_i32(vals@, bits@);
                let ghost rhs = views_upto(arrays@, p as int) + arrays@[p as int]@.subrange(
                    0,
                    j + 1,
                );
                assert(lhs.len() == rhs.len());
                assert(lhs[sum_lens_upto(arrays@, p as int) + j] == rhs[sum_lens_upto(
                    arrays@,
                    p as int,
                ) + j]);
                assert forall|pos: int| 0 <= pos < lhs.len() implies lhs[pos] == rhs[pos] by {
                    if pos < obits.len() {
                        assert(built_i32(ovals, obits)[pos] == lhs[pos]);
                    }
                }
                assert(lhs =~= rhs);
            }
            j = j + 1;
        }
        proof {
            assert(arrays@[p as int]@.subrange(0, m as int) =~= arrays@[p as int]@);
        }
        p = p + 1;
    }
    let total = vals.len();
    let nulls = if use_mask {
        Option::Some(Bitmap::from_vec(bits))
    } else {
        Option::None
    };
    let r = ArrayData::Int32 { len: total, offset: 0, values: Buffer::from_vec(vals), nulls };
    proof {
        r.lemma_view_len();
        assert(r@ =~= concat_views(arrays@));
    }
    r
}

#[verifier::loop_isolation(false)]
fn concat_boolean(arrays: &Vec<ArrayData>) -> (r: ArrayData)
    requires
        forall|i: int| 0 <= i < arrays@.len() ==> (#[trigger] arrays@[i]).wf(),
        forall|i: int|
            0 <= i < arrays@.len() ==> (#[trigger] arrays@[i]) matches ArrayData::Boolean { .. },
        sum_lens(arrays@) <= usize::MAX,
    ensures
        r.wf(),
        r.dtype() == DataType::Boolean,
        r.spec_offset() == 0,
        r.spec_len() == sum_lens(arrays@),
        r@ == concat_views(arrays@),
{
    let n = arrays.len();
    let mut vals: Vec<bool> = Vec::new();
    let mut bits: Vec<bool> = Vec::new();
    let mut use_mask = false;
    let mut p: usize = 0;
    while p < n
        invariant
            n == arrays@.len(),
            p <= n,
            forall|i: int| 0 <= i < n ==> (#[trigger] arrays@[i]).wf(),
            forall|i: int| 0 <= i < n ==> (#[trigger] arrays@[i]) matches ArrayData::Boolean { .. },
            sum_lens(arrays@) <= usize::MAX,
            vals@.len() == sum_lens_upto(arrays@, p as int),
            bits@.len() == vals@.len(),
            built_bool(vals@, bits@) == views_upto(arrays@, p as int),
            !use_mask ==> (forall|t: int| 0 <= t < bits@.len() ==> bits@[t]),
        decreases n - p,
    {
        let a = &arrays[p];
        if a.has_validity() {
            use_mask = true;
        }
        let m = a.len();
        proof {
            a.lemma_view_len();
            lemma_sum_lens_mono(arrays@, p + 1, n as int);
        }
        let mut j: usize = 0;
        while j < m
            invariant
                n == arrays@.len(),
                p < n,
                forall|i: int| 0 <= i < n ==> (#[trigger] arrays@[i]).wf(),
                forall|i: int|
                    0 <= i < n ==> (#[trigger] arrays@[i]) matches ArrayData::Boolean { .. },
                sum_lens(arrays@) <= usize::MAX,
                sum_lens_upto(arrays@, p + 1) <= sum_lens(arrays@),
                m == arrays@[p as int].spec_len(),
                m == arrays@[p as int]@.len(),
                j <= m,
                vals@.len() == sum_lens_upto(arrays@, p as int) + j,
                bits@.len() == vals@.len(),
                built_bool(vals@, bits@) == views_upto(arrays@, p as int) + arrays@[
                    p as int
                ]@.subrange(0, j as int),
                arrays@[p as int].has_mask() ==> use_mask,
                !use_mask ==> (forall|t: int| 0 <= t < bits@.len() ==> bits@[t]),
            decreases m - j,
        {
            let b = a.is_valid(j);
            let v: bool = match a {
                ArrayData::Boolean { offset, values, .. } => values.get(*offset + j),
                _ => {
                    proof {
                        assert(false);
                    }
                    false
                },
            };
            let ghost ovals = vals@;
            let ghost obits = bits@;
            vals.push(v);
            bits.push(b);
            proof {
                lemma_views_len(arrays@, p as int);
                assert(!arrays@[p as int].has_mask() ==> b);
                let ghost lhs = built_bool(vals@, bits@);
                let ghost rhs = views_upto(arrays@, p as int) + arrays@[p as int]@.subrange(
                    0,
                    j + 1,
                );
                assert(lhs.len() == rhs.len());
                assert(lhs[sum_lens_upto(arrays@, p as int) + j] == rhs[sum_lens_upto(
                    arrays@,
                    p as int,
                ) + j]);
                assert forall|pos: int| 0 <= pos < lhs.len() implies lhs[pos] == rhs[pos] by {
                    if pos < obits.len() {
                        assert(built_bool(ovals, obits)[pos] == lhs[pos]);
                    }
                }
                assert(lhs =~= rhs);
            }
            j = j + 1;
        }
        proof {
            assert(arrays@[p as int]@.subrange(0, m as int) =~= arrays@[p as int]@);
        }
        p = p + 1;
    }
    let total = vals.len();
    let nulls = if use_mask {
        Option::Some(Bitmap::from_vec(bits))
    } else {
        Option::None
    };
    let r = ArrayData::Boolean { len: total, offset: 0, values: Buffer::from_vec(vals), nulls };
    proof {
        r.lemma_view_len();
        assert(r@ =~= concat_views(arrays@));
    }
    r
}

pub open spec fn built_str(offs: Seq<i32>, bytes: Seq<u8>, bits: Seq<bool>) -> Seq<Val> {
    Seq::new(
        bits.len(),
        |pos: int|
            if bits[pos] {
                Val::Bytes(bytes.subrange(offs[pos] as int, offs[pos + 1] as int))
            } else {
                Val::Null
            },
    )
}

#[verifier::loop_isolation(false)]
fn concat_utf8(arrays: &Vec<ArrayData>) -> (r: ArrayData)
    requires
        forall|i: int| 0 <= i < arrays@.len() ==> (#[trigger] arrays@[i]).wf(),
        forall|i: int|
            0 <= i < arrays@.len() ==> (#[trigger] arrays@[i]) matches ArrayData::Utf8 { .. },
        sum_lens(arrays@) + 64 <= usize::MAX,
        str_hint(arrays@) + 64 <= usize::MAX,
        str_exact(arrays@) <= i32::MAX,
    ensures
        r.wf(),
        r.dtype() == DataType::Utf8,
        r.spec_offset() == 0,
        r.spec_len() == sum_lens(arrays@),
        r@ == concat_views(arrays@),
        (r matches ArrayData::Utf8 { values, .. } ==> values.spec_capacity() == spec_round64(
            str_hint(arrays@),
        )),
{
    let n = arrays.len();
    proof {
        lemma_exact_le_hint(arrays@, n as int);
        crate::buffer::lemma_round64_least(str_hint(arrays@));
    }
    let cap_hint = compute_str_values_length(arrays);
    let mut vb = BufferBuilder::<u8>::new(cap_hint);
    let mut offs: Vec<i32> = Vec::new();
    offs.push(0);
    let mut bits: Vec<bool> = Vec::new();
    let mut use_mask = false;
    let mut p: usize = 0;
    while p < n
        invariant
            p <= n,
            vb.wf(),
            vb.spec_capacity() == spec_round64(str_hint(arrays@)),
            vb@.len() == exact_upto(arrays@, p as int),
            offs@.len() == sum_lens_upto(arrays@, p as int) + 1,
            bits@.len() == sum_lens_upto(arrays@, p as int),
            forall|t: int| 0 <= t < offs@.len() ==> 0 <= #[trigger] offs@[t] <= vb@.len(),
            forall|t1: int, t2: int|
                0 <= t1 <= t2 < offs@.len() ==> #[trigger] offs@[t1] <= #[trigger] offs@[t2],
            offs@[offs@.len() - 1] == vb@.len(),
            built_str(offs@, vb@, bits@) == views_upto(arrays@, p as int),
            !use_mask ==> (forall|t: int| 0 <= t < bits@.len() ==> bits@[t]),
        decreases n - p,
    {
        let a = &arrays[p];
        if a.has_validity() {
            use_mask = true;
        }
        let m = a.len();
        proof {
            a.lemma_view_len();
            lemma_sum_lens_mono(arrays@, p + 1, n as int);
        }
        match a {
            ArrayData::Utf8 { offset, offsets, values, .. } => {
                let mut j: usize = 0;
                while j < m
                    invariant
                        j <= m,
                        vb.wf(),
                        vb.spec_capacity() == spec_round64(str_hint(arrays@)),
                        vb@.len() == exact_upto(arrays@, p as int) + (offsets@[*offset + j]
                            - offsets@[*offset as int]),
                        offs@.len() == sum_lens_upto(arrays@, p as int) + j + 1,
                        bits@.len() == offs@.len() - 1,
                        forall|t: int| 0 <= t < offs@.len() ==> 0 <= #[trigger] offs@[t]
                            <= vb@.len(),
                        forall|t1: int, t2: int|
                            0 <= t1 <= t2 < offs@.len() ==> #[trigger] offs@[t1] <= #[trigger] offs@[t2],
                        offs@[offs@.len() - 1] == vb@.len(),
                        built_str(offs@, vb@, bits@) == views_upto(arrays@, p as int) + arrays@[
                            p as int
                        ]@.subrange(0, j as int),
                        !use_mask ==> (forall|t: int| 0 <= t < bits@.len() ==> bits@[t]),
                        arrays@[p as int].has_mask() ==> use_mask,
                    decreases m - j,
                {
                    let b = a.is_valid(j);
                    let lo_w = offsets.get(*offset + j);
                    let hi_w = offsets.get(*offset + j + 1);
                    let lo = lo_w as usize;
                    let hi = hi_w as usize;
                    proof {
                        assert(offsets@[*offset + j] <= offsets@[*offset + j + 1]);
                        assert(offsets@[*offset + j + 1] <= offsets@[*offset + m]);
                        assert(exact_upto(arrays@, p as int) + (offsets@[*offset + j + 1]
                            - offsets@[*offset as int]) <= exact_upto(arrays@, p + 1));
                        assert(exact_upto(arrays@, p + 1) <= exact_upto(arrays@, n as int));
                    }
                    let ghost obytes = vb@;
                    let ghost ooffs = offs@;
                    let ghost obits = bits@;
                    vb.append_from(values, lo, hi);
                    let newoff = vb.len();
                    offs.push(newoff as i32);
                    bits.push(b);
                    proof {
                        lemma_views_len(arrays@, p as int);
                        assert(!arrays@[p as int].has_mask() ==> b);
                        assert(vb@.subrange(ooffs[ooffs.len() - 1] as int, newoff as int)
                            =~= values@.subrange(lo as int, hi as int));
                        let ghost lhs = built_str(offs@, vb@, bits@);
                        let ghost rhs = views_upto(arrays@, p as int) + arrays@[
                            p as int
                        ]@.subrange(0, j + 1);
                        assert forall|pos: int| 0 <= pos < lhs.len() implies lhs[pos] == rhs[pos] by {
                            if pos < obits.len() {
                                assert(built_str(ooffs, obytes, obits)[pos] == rhs[pos]);
                                assert(vb@.subrange(ooffs[pos] as int, ooffs[pos + 1] as int)
                                    =~= obytes.subrange(ooffs[pos] as int, ooffs[pos + 1] as int));
                                assert(offs@[pos] == ooffs[pos] && offs@[pos + 1] == ooffs[pos
                                    + 1]);
                            }
                        }
                        assert(lhs =~= rhs);
                    }
                    j = j + 1;
                }
            },
            _ => {
                proof {
                    assert(false);
                }
            },
        }
        proof {
            assert(arrays@[p as int]@.subrange(0, m as int) =~= arrays@[p as int]@);
        }
        p = p + 1;
    }
    let total = bits.len();
    let nulls = if use_mask {
        Option::Some(Bitmap::from_vec(bits))
    } else {
        Option::None
    };
    let r = ArrayData::Utf8 {
        len: total,
        offset: 0,
        offsets: Buffer::from_vec(offs),
        values: vb.finish(),
        nulls,
    };
    proof {
        r.lemma_view_len();
        assert(r@ =~= concat_views(arrays@));
    }
    r
}

pub open spec fn built_lstr(offs: Seq<i64>, bytes: Seq<u8>, bits: Seq<bool>) -> Seq<Val> {
    Seq::new(
        bits.len(),
        |pos: int|
            if bits[pos] {
                Val::Bytes(bytes.subrange(offs[pos] as int, offs[pos + 1] as int))
            } else {
                Val::Null
            },
    )
}

#[verifier::loop_isolation(false)]
fn concat_large_utf8(arrays: &Vec<ArrayData>) -> (r: ArrayData)
    requires
        forall|i: int| 0 <= i < arrays@.len() ==> (#[trigger] arrays@[i]).wf(),
        forall|i: int|
            0 <= i < arrays@.len() ==> (#[trigger] arrays@[i]) matches ArrayData::LargeUtf8 { .. },
        sum_lens(arrays@) + 64 <= usize::MAX,
        str_hint(arrays@) + 64 <= usize::MAX,
        str_exact(arrays@) <= i64::MAX,
    ensures
        r.wf(),
        r.dtype() == DataType::LargeUtf8,
        r.spec_offset() == 0,
        r.spec_len() == sum_lens(arrays@),
        r@ == concat_views(arrays@),
        (r matches ArrayData::LargeUtf8 { values, .. } ==> values.spec_capacity() == spec_round64(
            str_hint(arrays@),
        )),
{
    let n = arrays.len();
    proof {
        lemma_exact_le_hint(arrays@, n as int);
        crate::buffer::lemma_round64_least(str_hint(arrays@));
    }
    let cap_hint = compute_str_values_length(arrays);
    let mut vb = BufferBuilder::<u8>::new(cap_hint);
    let mut offs: Vec<i64> = Vec::new();
    offs.push(0);
    let mut bits: Vec<bool> = Vec::new();
    let mut use_mask = false;
    let mut p: usize = 0;
    while p < n
        invariant
            p <= n,
            vb.wf(),
            vb.spec_capacity() == spec_round64(str_hint(arrays@)),
            vb@.len() == exact_upto(arrays@, p as int),
            offs@.len() == sum_lens_upto(arrays@, p as int) + 1,
            bits@.len() == sum_lens_upto(arrays@, p as int),
            forall|t: int| 0 <= t < offs@.len() ==> 0 <= #[trigger] offs@[t] <= vb@.len(),
            forall|t1: int, t2: int|
                0 <= t1 <= t2 < offs@.len() ==> #[trigger] offs@[t1] <= #[trigger] offs@[t2],
            offs@[offs@.len() - 1] == vb@.len(),
            built_lstr(offs@, vb@, bits@) == views_upto(arrays@, p as int),
            !use_mask ==> (forall|t: int| 0 <= t < bits@.len() ==> bits@[t]),
        decreases n - p,
    {
        let a = &arrays[p];
        if a.has_validity() {
            use_mask = true;
        }
        let m = a.len();
        proof {
            a.lemma_view_len();
            lemma_sum_lens_mono(arrays@, p + 1, n as int);
        }
        match a {
            ArrayData::LargeUtf8 { offset, offsets, values, .. } => {
                let mut j: usize = 0;
                while j < m
                    invariant
                        j <= m,
                        vb.wf(),
                        vb.spec_capacity() == spec_round64(str_hint(arrays@)),
                        vb@.len() == exact_upto(arrays@, p as int) + (offsets@[*offset + j]
                            - offsets@[*offset as int]),
                        offs@.len() == sum_lens_upto(arrays@, p as int) + j + 1,
                        bits@.len() == offs@.len() - 1,
                        forall|t: int| 0 <= t < offs@.len() ==> 0 <= #[trigger] offs@[t]
                            <= vb@.len(),
                        forall|t1: int, t2: int|
                            0 <= t1 <= t2 < offs@.len() ==> #[trigger] offs@[t1] <= #[trigger] offs@[t2],
                        offs@[offs@.len() - 1] == vb@.len(),
                        built_lstr(offs@, vb@, bits@) == views_upto(arrays@, p as int) + arrays@[
                            p as int
                        ]@.subrange(0, j as int),
                        !use_mask ==> (forall|t: int| 0 <= t < bits@.len() ==> bits@[t]),
                        arrays@[p as int].has_mask() ==> use_mask,
                    decreases m - j,
                {
                    let b = a.is_valid(j);
                    let lo_w = offsets.get(*offset + j);
                    let hi_w = offsets.get(*offset + j + 1);
                    let lo = lo_w as usize;
                    let hi = hi_w as usize;
                    proof {
                        assert(offsets@[*offset + j] <= offsets@[*offset + j + 1]);
                        assert(offsets@[*offset + j + 1] <= offsets@[*offset + m]);
                        assert(exact_upto(arrays@, p as int) + (offsets@[*offset + j + 1]
                            - offsets@[*offset as int]) <= exact_upto(arrays@, p + 1));
                        assert(exact_upto(arrays@, p + 1) <= exact_upto(arrays@, n as int));
                    }
                    let ghost obytes = vb@;
                    let ghost ooffs = offs@;
                    let ghost obits = bits@;
                    vb.append_from(values, lo, hi);
                    let newoff = vb.len();
                    offs.push(newoff as i64);
                    bits.push(b);
                    proof {
                        lemma_views_len(arrays@, p as int);
                        assert(!arrays@[p as int].has_mask() ==> b);
                        assert(vb@.subrange(ooffs[ooffs.len() - 1] as int, newoff as int)
                            =~= values@.subrange(lo as int, hi as int));
                        let ghost lhs = built_lstr(offs@, vb@, bits@);
                        let ghost rhs = views_upto(arrays@, p as int) + arrays@[
                            p as int
                        ]@.subrange(0, j + 1);
                        assert forall|pos: int| 0 <= pos < lhs.len() implies lhs[pos] == rhs[pos] by {
                            if pos < obits.len() {
                                assert(built_lstr(ooffs, obytes, obits)[pos] == rhs[pos]);
                                assert(vb@.subrange(ooffs[pos] as int, ooffs[pos + 1] as int)
                                    =~= obytes.subrange(ooffs[pos] as int, ooffs[pos + 1] as int));
                                assert(offs@[pos] == ooffs[pos] && offs@[pos + 1] == ooffs[pos
                                    + 1]);
                            }
                        }
                        assert(lhs =~= rhs);
                    }
                    j = j + 1;
                }
            },
            _ => {
                proof {
                    assert(false);
                }
            },
        }
        proof {
            assert(arrays@[p as int]@.subrange(0, m as int) =~= arrays@[p as int]@);
        }
        p = p + 1;
    }
    let total = bits.len();
    let nulls = if use_mask {
        Option::Some(Bitmap::from_vec(bits))
    } else {
        Option::None
    };
    let r = ArrayData::LargeUtf8 {
        len: total,
        offset: 0,
        offsets: Buffer::from_vec(offs),
        values: vb.finish(),
        nulls,
    };
    proof {
        r.lemma_view_len();
        assert(r@ =~= concat_views(arrays@));
    }
    r
}

/// Element `k` of input `p` sits at position `sum_lens_upto(s, p) + k` of
/// the concatenated view.
pub proof fn lemma_views_index(s: Seq<ArrayData>, n: int, p: int, k: int)
    requires
        0 <= p < n <= s.len(),
        0 <= k < s[p]@.len(),
    ensures
        views_upto(s, n)[sum_lens_upto(s, p) + k] == s[p]@[k],
    decreases n,
{
    lemma_views_len(s, n - 1);
    s[p].lemma_view_len();
    assert(views_upto(s, n) == views_upto(s, n - 1) + s[n - 1]@);
    if p == n - 1 {
        assert(sum_lens_upto(s, p) == views_upto(s, n - 1).len());
    } else {
        lemma_views_index(s, n - 1, p, k);
        lemma_sum_lens_mono(s, p + 1, n - 1);
        lemma_sum_lens_mono(s, 0, p);
        assert(sum_lens_upto(s, p + 1) == sum_lens_upto(s, p) + s[p].spec_len());
        assert(sum_lens_upto(s, p) + k < sum_lens_upto(s, n - 1));
        assert(views_upto(s, n)[sum_lens_upto(s, p) + k] == views_upto(s, n - 1)[sum_lens_upto(
            s,
            p,
        ) + k]);
    }
}

/// The shared values arrays of a sequence of dictionary records.
pub open spec fn dict_values_seq(s: Seq<ArrayData>) -> Seq<ArrayData> {
    s.map_values(
        |a: ArrayData|
            match a {
                ArrayData::Dictionary { values, .. } => *values,
                _ => a,
            },
    )
}

/// How many distinct indexes the key width of a dictionary record can
/// address.
pub open spec fn key_space(a: ArrayData) -> int {
    match a {
        ArrayData::Dictionary { keys, .. } => if *keys matches ArrayData::Int8 { .. } {
            128
        } else {
            0x8000_0000
        },
        _ => 0,
    }
}

/// Arithmetic side conditions for a flat (non-dictionary) concatenation.
pub open spec fn flat_fits(s: Seq<ArrayData>) -> bool {
    sum_lens(s) + 64 <= usize::MAX && (s.len() > 0 && (s[0] matches ArrayData::Utf8 { .. })
        ==> str_hint(s) + 64 <= usize::MAX && str_exact(s) <= i32::MAX) && (s.len() > 0 && (s[0]
        matches ArrayData::LargeUtf8 { .. }) ==> str_hint(s) + 64 <= usize::MAX && str_exact(s)
        <= i64::MAX)
}

/// Arithmetic side conditions for `concat`: sums of lengths and of string
/// bytes fit the machine, and a merged dictionary stays addressable by
/// the key width.
pub open spec fn concat_fits(s: Seq<ArrayData>) -> bool {
    sum_lens(s) + 64 <= usize::MAX && (s.len() > 1 && all_same_type(s) ==> flat_fits(s) && ((s[0]
        matches ArrayData::Dictionary { .. }) ==> flat_fits(dict_values_seq(s)) && sum_lens(
        dict_values_seq(s),
    ) <= key_space(s[0])))
}

/// Concatenation of flat (non-dictionary) arrays of one shared type.
fn concat_flat(arrays: &Vec<ArrayData>) -> (r: ArrayData)
    requires
        arrays@.len() >= 1,
        forall|i: int| 0 <= i < arrays@.len() ==> (#[trigger] arrays@[i]).wf(),
        all_same_type(arrays@),
        !arrays@[0].is_dictionary(),
        flat_fits(arrays@),
    ensures
        r.wf(),
        r.dtype() == arrays@[0].dtype(),
        r.spec_offset() == 0,
        r.spec_len() == sum_lens(arrays@),
        r@ == concat_views(arrays@),
        (arrays@[0] matches ArrayData::Utf8 { .. } ==> (r matches ArrayData::Utf8 { values, .. }
            && values.spec_capacity() == spec_round64(str_hint(arrays@)))),
        (arrays@[0] matches ArrayData::LargeUtf8 { .. } ==> (r matches ArrayData::LargeUtf8 {
            values,
            ..
        } && values.spec_capacity() == spec_round64(str_hint(arrays@)))),
{
    proof {
        assert forall|i: int| 0 <= i < arrays@.len() implies (#[trigger] arrays@[i]).dtype()
            == arrays@[0].dtype() by {}
    }
    match &arrays[0] {
        ArrayData::Int8 { .. } => concat_int8(arrays),
        ArrayData::Int32 { .. } => concat_int32(arrays),
        ArrayData::Int64 { .. } => concat_int64(arrays),
        ArrayData::Boolean { .. } => concat_boolean(arrays),
        ArrayData::Utf8 { .. } => concat_utf8(arrays),
        ArrayData::LargeUtf8 { .. } => concat_large_utf8(arrays),
        ArrayData::Dictionary { .. } => {
            proof {
                assert(false);
            }
            arrays[0].share()
        },
    }
}

/// The record behind a shared handle.
pub open spec fn arc_inner(a: &Arc<ArrayData>) -> ArrayData {
    **a
}

pub open spec fn built_dict8(kvals: Seq<i8>, kbits: Seq<bool>, mval: ArrayData) -> Seq<Val> {
    Seq::new(
        kbits.len(),
        |pos: int|
            if kbits[pos] {
                mval.logical()[kvals[pos] as int]
            } else {
                Val::Null
            },
    )
}

#[verifier::loop_isolation(false)]
fn build_dict8(arrays: &Vec<ArrayData>, merged: Arc<ArrayData>, reused: bool) -> (r: ArrayData)
    requires
        arrays@.len() >= 1,
        forall|i: int| 0 <= i < arrays@.len() ==> (#[trigger] arrays@[i]).wf(),
        forall|i: int|
            0 <= i < arrays@.len() ==> (#[trigger] arrays@[i]) matches ArrayData::Dictionary {
                ..
            },
        all_same_type(arrays@),
        sum_lens(arrays@) + 64 <= usize::MAX,
        (arrays@[0] matches ArrayData::Dictionary { keys, .. } ==> ((*keys) matches
        ArrayData::Int8 { .. })),
        (*merged).wf(),
        !(*merged).is_dictionary(),
        (arrays@[0] matches ArrayData::Dictionary { values, .. } ==> (*merged).dtype() == (
        *values).dtype()),
        reused ==> (forall|i: int|
            0 <= i < arrays@.len() ==> ((#[trigger] arrays@[i]) matches ArrayData::Dictionary {
                values,
                ..
            } ==> *values == *merged)),
        !reused ==> (*merged)@ == concat_views(dict_values_seq(arrays@)) && (*merged).spec_len()
            == sum_lens(dict_values_seq(arrays@)) && sum_lens(dict_values_seq(arrays@)) <= 128,
    ensures
        r.wf(),
        r.dtype() == arrays@[0].dtype(),
        r.spec_offset() == 0,
        r.spec_len() == sum_lens(arrays@),
        r@ == concat_views(arrays@),
        (r matches ArrayData::Dictionary { values, .. } ==> *values == *merged),
{
    let n = arrays.len();
    let mut kvals: Vec<i8> = Vec::new();
    let mut kbits: Vec<bool> = Vec::new();
    let mut use_mask = false;
    let mut shift: usize = 0;
    let ghost vseq = dict_values_seq(arrays@);
    let ghost mval = arc_inner(&merged);
    proof {
        mval.lemma_view_len();
    }
    let mut p: usize = 0;
    while p < n
        invariant
            p <= n,
            kvals@.len() == sum_lens_upto(arrays@, p as int),
            kbits@.len() == kvals@.len(),
            forall|t: int|
                0 <= t < kbits@.len() && kbits@[t] ==> 0 <= #[trigger] kvals@[t]
                    < mval.spec_len(),
            built_dict8(kvals@, kbits@, mval) == views_upto(arrays@, p as int),
            !use_mask ==> (forall|t: int| 0 <= t < kbits@.len() ==> kbits@[t]),
            reused ==> shift == 0,
            !reused ==> shift == sum_lens_upto(vseq, p as int),
            !reused ==> shift <= 128,
        decreases n - p,
    {
        let a = &arrays[p];
        let m = a.len();
        proof {
            a.lemma_view_len();
            lemma_sum_lens_mono(arrays@, p + 1, n as int);
            if !reused {
                lemma_sum_lens_mono(vseq, p + 1, vseq.len() as int);
                lemma_sum_lens_mono(vseq, 0, p as int);
            }
        }
        match a {
            ArrayData::Dictionary { keys, values } => {
                proof {
                    assert(arrays@[p as int].dtype() == arrays@[0].dtype());
                    assert(arrays@[0] matches ArrayData::Dictionary { keys: k0, .. } ==> k0.dtype()
                        == DataType::Int8);
                    assert(keys.dtype() == DataType::Int8);
                    assert((**keys) matches ArrayData::Int8 { .. });
                    assert(keys.wf());
                }
                if keys.has_validity() {
                    use_mask = true;
                }
                match &**keys {
                    ArrayData::Int8 { offset, values: kv, nulls, .. } => {
                        let mut j: usize = 0;
                        while j < m
                            invariant
                                j <= m,
                                kvals@.len() == sum_lens_upto(arrays@, p as int) + j,
                                kbits@.len() == kvals@.len(),
                                forall|t: int|
                                    0 <= t < kbits@.len() && kbits@[t] ==> 0 <= #[trigger] kvals@[
                                        t
                                    ] < mval.spec_len(),
                                built_dict8(kvals@, kbits@, mval) == views_upto(
                                    arrays@,
                                    p as int,
                                ) + arrays@[p as int]@.subrange(0, j as int),
                                !use_mask ==> (forall|t: int|
                                    0 <= t < kbits@.len() ==> kbits@[t]),
                                arrays@[p as int].has_mask() ==> use_mask,
                            decreases m - j,
                        {
                            let b = match nulls {
                                Option::Some(bm) => bm.is_set(*offset + j),
                                Option::None => true,
                            };
                            let ghost okvals = kvals@;
                            let ghost okbits = kbits@;
                            if b {
                                let k = kv.get(*offset + j);
                                proof {
                                    assert((**keys).valid_idx(j as int) == b);
                                    assert(arrays@[p as int].valid_idx(j as int));
                                    assert((**keys).int_at(j as int) == k as int);
                                    assert(0 <= k as int && (k as int) < (**values).spec_len());
                                }
                                let kk: i64 = (k as i64) + (shift as i64);
                                proof {
                                    if reused {
                                        assert(**values == mval);
                                    } else {
                                        (**values).lemma_view_len();
                                        assert(vseq[p as int] == **values);
                                        lemma_sum_lens_mono(vseq, p + 1, vseq.len() as int);
                                        assert(sum_lens_upto(vseq, p + 1) == shift + (
                                        **values).spec_len());
                                        lemma_views_index(
                                            vseq,
                                            vseq.len() as int,
                                            p as int,
                                            k as int,
                                        );
                                    }
                                    assert(0 <= kk && kk < mval.spec_len());
                                    assert(kk <= 127);
                                    assert(mval.logical()[kk as int] == (**values).logical()[
                                        k as int
                                    ]);
                                }
                                kvals.push(kk as i8);
                            } else {
                                kvals.push(0);
                            }
                            kbits.push(b);
                            proof {
                                lemma_views_len(arrays@, p as int);
                                let ghost lhs = built_dict8(kvals@, kbits@, mval);
                                let ghost rhs = views_upto(arrays@, p as int) + arrays@[
                                    p as int
                                ]@.subrange(0, j + 1);
                                assert forall|pos: int|
                                    0 <= pos < lhs.len() implies lhs[pos] == rhs[pos] by {
                                    if pos < okbits.len() {
                                        assert(built_dict8(okvals, okbits, mval)[pos] == rhs[
                                            pos
                                        ]);
                                    }
                                }
                                assert(lhs =~= rhs);
                            }
                            j = j + 1;
                        }
                    },
                    _ => {
                        proof {
                            assert(false);
                        }
                    },
                }
                if !reused {
                    let vlen = values.len();
                    shift = shift + vlen;
                }
            },
            _ => {
                proof {
                    assert(false);
                }
            },
        }
        proof {
            assert(arrays@[p as int]@.subrange(0, m as int) =~= arrays@[p as int]@);
        }
        p = p + 1;
    }
    let total = kvals.len();
    let ghost gkv = kvals@;
    let ghost gkb = kbits@;
    let nulls_out = if use_mask {
        Option::Some(Bitmap::from_vec(kbits))
    } else {
        Option::None
    };
    let new_keys = ArrayData::Int8 {
        len: total,
        offset: 0,
        values: Buffer::from_vec(kvals),
        nulls: nulls_out,
    };
    proof {
        assert forall|i: int|
            0 <= i < total && new_keys.valid_idx(i) implies 0 <= new_keys.int_at(i)
            && new_keys.int_at(i) < mval.spec_len() by {
            assert(new_keys.valid_idx(i) == gkb[i]);
            assert(new_keys.int_at(i) == gkv[i] as int);
        }
    }
    proof {
        assert(new_keys.dtype() == DataType::Int8);
        assert(new_keys.wf());
        assert(new_keys.spec_len() == total);
        assert(new_keys.spec_offset() == 0);
    }
    let r = ArrayData::Dictionary { keys: Box::new(new_keys), values: merged };
    proof {
        assert(arrays@[0] matches ArrayData::Dictionary { keys, values } ==> keys.dtype()
            == DataType::Int8 && (*merged).dtype() == (*values).dtype());
        assert(r.dtype() == DataType::Dictionary(
            Box::new(DataType::Int8),
            Box::new((*merged).dtype()),
        ));
        assert(arrays@[0] matches ArrayData::Dictionary { keys, values } ==> arrays@[0].dtype()
            == DataType::Dictionary(Box::new(keys.dtype()), Box::new((*values).dtype())));
        assert(r.dtype() == arrays@[0].dtype());
        r.lemma_view_len();
        assert(r@ =~= concat_views(arrays@));
    }
    r
}

pub open spec fn built_dict32(kvals: Seq<i32>, kbits: Seq<bool>, mval: ArrayData) -> Seq<Val> {
    Seq::new(
        kbits.len(),
        |pos: int|
            if kbits[pos] {
                mval.logical()[kvals[pos] as int]
            } else {
                Val::Null
            },
    )
}

#[verifier::loop_isolation(false)]
fn build_dict32(arrays: &Vec<ArrayData>, merged: Arc<ArrayData>, reused: bool) -> (r: ArrayData)
    requires
        arrays@.len() >= 1,
        forall|i: int| 0 <= i < arrays@.len() ==> (#[trigger] arrays@[i]).wf(),
        forall|i: int|
            0 <= i < arrays@.len() ==> (#[trigger] arrays@[i]) matches ArrayData::Dictionary {
                ..
            },
        all_same_type(arrays@),
        sum_lens(arrays@) + 64 <= usize::MAX,
        (arrays@[0] matches ArrayData::Dictionary { keys, .. } ==> ((*keys) matches
        ArrayData::Int32 { .. })),
        (*merged).wf(),
        !(*merged).is_dictionary(),
        (arrays@[0] matches ArrayData::Dictionary { values, .. } ==> (*merged).dtype() == (
        *values).dtype()),
        reused ==> (forall|i: int|
            0 <= i < arrays@.len() ==> ((#[trigger] arrays@[i]) matches ArrayData::Dictionary {
                values,
                ..
            } ==> *values == *merged)),
        !reused ==> (*merged)@ == concat_views(dict_values_seq(arrays@)) && (*merged).spec_len()
            == sum_lens(dict_values_seq(arrays@)) && sum_lens(dict_values_seq(arrays@)) <= 0x8000_0000,
    ensures
        r.wf(),
        r.dtype() == arrays@[0].dtype(),
        r.spec_offset() == 0,
        r.spec_len() == sum_lens(arrays@),
        r@ == concat_views(arrays@),
        (r matches ArrayData::Dictionary { values, .. } ==> *values == *merged),
{
    let n = arrays.len();
    let mut kvals: Vec<i32> = Vec::new();
    let mut kbits: Vec<bool> = Vec::new();
    let mut use_mask = false;
    let mut shift: usize = 0;
    let ghost vseq = dict_values_seq(arrays@);
    let ghost mval = arc_inner(&merged);
    proof {
        mval.lemma_view_len();
    }
    let mut p: usize = 0;
    while p < n
        invariant
            p <= n,
            kvals@.len() == sum_lens_upto(arrays@, p as int),
            kbits@.len() == kvals@.len(),
            forall|t: int|
                0 <= t < kbits@.len() && kbits@[t] ==> 0 <= #[trigger] kvals@[t]
                    < mval.spec_len(),
            built_dict32(kvals@, kbits@, mval) == views_upto(arrays@, p as int),
            !use_mask ==> (forall|t: int| 0 <= t < kbits@.len() ==> kbits@[t]),
            reused ==> shift == 0,
            !reused ==> shift == sum_lens_upto(vseq, p as int),
            !reused ==> shift <= 0x8000_0000,
        decreases n - p,
    {
        let a = &arrays[p];
        let m = a.len();
        proof {
            a.lemma_view_len();
            lemma_sum_lens_mono(arrays@, p + 1, n as int);
            if !reused {
                lemma_sum_lens_mono(vseq, p + 1, vseq.len() as int);
                lemma_sum_lens_mono(vseq, 0, p as int);
            }
        }
        match a {
            ArrayData::Dictionary { keys, values } => {
                proof {
                    assert(arrays@[p as int].dtype() == arrays@[0].dtype());
                    assert(arrays@[0] matches ArrayData::Dictionary { keys: k0, .. } ==> k0.dtype()
                        == DataType::Int32);
                    assert(keys.dtype() == DataType::Int32);
                    assert((**keys) matches ArrayData::Int32 { .. });
                    assert(keys.wf());
                }
                if keys.has_validity() {
                    use_mask = true;
                }
                match &**keys {
                    ArrayData::Int32 { offset, values: kv, nulls, .. } => {
                        let mut j: usize = 0;
                        while j < m
                            invariant
                                j <= m,
                                kvals@.len() == sum_lens_upto(arrays@, p as int) + j,
                                kbits@.len() == kvals@.len(),
                                forall|t: int|
                                    0 <= t < kbits@.len() && kbits@[t] ==> 0 <= #[trigger] kvals@[
                                        t
                                    ] < mval.spec_len(),
                                built_dict32(kvals@, kbits@, mval) == views_upto(
                                    arrays@,
                                    p as int,
                                ) + arrays@[p as int]@.subrange(0, j as int),
                                !use_mask ==> (forall|t: int|
                                    0 <= t < kbits@.len() ==> kbits@[t]),
                                arrays@[p as int].has_mask() ==> use_mask,
                            decreases m - j,
                        {
                            let b = match nulls {
                                Option::Some(bm) => bm.is_set(*offset + j),
                                Option::None => true,
                            };
                            let ghost okvals = kvals@;
                            let ghost okbits = kbits@;
                            if b {
                                let k = kv.get(*offset + j);
                                proof {
                                    assert((**keys).valid_idx(j as int) == b);
                                    assert(arrays@[p as int].valid_idx(j as int));
                                    assert((**keys).int_at(j as int) == k as int);
                                    assert(0 <= k as int && (k as int) < (**values).spec_len());
                                }
                                let kk: i64 = (k as i64) + (shift as i64);
                                proof {
                                    if reused {
                                        assert(**values == mval);
                                    } else {
                                        (**values).lemma_view_len();
                                        assert(vseq[p as int] == **values);
                                        lemma_sum_lens_mono(vseq, p + 1, vseq.len() as int);
                                        assert(sum_lens_upto(vseq, p + 1) == shift + (
                                        **values).spec_len());
                                        lemma_views_index(
                                            vseq,
                                            vseq.len() as int,
                                            p as int,
                                            k as int,
                                        );
                                    }
                                    assert(0 <= kk && kk < mval.spec_len());
                                    assert(kk <= 0x7fff_ffff);
                                    assert(mval.logical()[kk as int] == (**values).logical()[
                                        k as int
                                    ]);
                                }
                                kvals.push(kk as i32);
                            } else {
                                kvals.push(0);
                            }
                            kbits.push(b);
                            proof {
                                lemma_views_len(arrays@, p as int);
                                let ghost lhs = built_dict32(kvals@, kbits@, mval);
                                let ghost rhs = views_upto(arrays@, p as int) + arrays@[
                                    p as int
                                ]@.subrange(0, j + 1);
                                assert forall|pos: int|
                                    0 <= pos < lhs.len() implies lhs[pos] == rhs[pos] by {
                                    if pos < okbits.len() {
                                        assert(built_dict32(okvals, okbits, mval)[pos] == rhs[
                                            pos
                                        ]);
                                    }
                                }
                                assert(lhs =~= rhs);
                            }
                            j = j + 1;
                        }
                    },
                    _ => {
                        proof {
                            assert(false);
                        }
                    },
                }
                if !reused {
                    let vlen = values.len();
                    shift = shift + vlen;
                }
            },
            _ => {
                proof {
                    assert(false);
                }
            },
        }
        proof {
            assert(arrays@[p as int]@.subrange(0, m as int) =~= arrays@[p as int]@);
        }
        p = p + 1;
    }
    let total = kvals.len();
    let ghost gkv = kvals@;
    let ghost gkb = kbits@;
    let nulls_out = if use_mask {
        Option::Some(Bitmap::from_vec(kbits))
    } else {
        Option::None
    };
    let new_keys = ArrayData::Int32 {
        len: total,
        offset: 0,
        values: Buffer::from_vec(kvals),
        nulls: nulls_out,
    };
    proof {
        assert forall|i: int|
            0 <= i < total && new_keys.valid_idx(i) implies 0 <= new_keys.int_at(i)
            && new_keys.int_at(i) < mval.spec_len() by {
            assert(new_keys.valid_idx(i) == gkb[i]);
            assert(new_keys.int_at(i) == gkv[i] as int);
        }
    }
    proof {
        assert(new_keys.dtype() == DataType::Int32);
        assert(new_keys.wf());
        assert(new_keys.spec_len() == total);
        assert(new_keys.spec_offset() == 0);
    }
    let r = ArrayData::Dictionary { keys: Box::new(new_keys), values: merged };
    proof {
        assert(arrays@[0] matches ArrayData::Dictionary { keys, values } ==> keys.dtype()
            == DataType::Int32 && (*merged).dtype() == (*values).dtype());
        assert(r.dtype() == DataType::Dictionary(
            Box::new(DataType::Int32),
            Box::new((*merged).dtype()),
        ));
        assert(arrays@[0] matches ArrayData::Dictionary { keys, values } ==> arrays@[0].dtype()
            == DataType::Dictionary(Box::new(keys.dtype()), Box::new((*values).dtype())));
        assert(r.dtype() == arrays@[0].dtype());
        r.lemma_view_len();
        assert(r@ =~= concat_views(arrays@));
    }
    r
}

/// Concatenation of dictionary-encoded arrays of one shared type.  When
/// every input shares the same dictionary object it is reused without
/// copying; otherwise the dictionaries are concatenated and the keys
/// shifted accordingly.
#[verifier::loop_isolation(false)]
fn concat_dictionary(arrays: &Vec<ArrayData>) -> (r: ArrayData)
    requires
        arrays@.len() >= 1,
        forall|i: int| 0 <= i < arrays@.len() ==> (#[trigger] arrays@[i]).wf(),
        forall|i: int|
            0 <= i < arrays@.len() ==> (#[trigger] arrays@[i]) matches ArrayData::Dictionary {
                ..
            },
        all_same_type(arrays@),
        sum_lens(arrays@) + 64 <= usize::MAX,
        flat_fits(dict_values_seq(arrays@)),
        sum_lens(dict_values_seq(arrays@)) <= key_space(arrays@[0]),
    ensures
        r.wf(),
        r.dtype() == arrays@[0].dtype(),
        r.spec_offset() == 0,
        r.spec_len() == sum_lens(arrays@),
        r@ == concat_views(arrays@),
{
    let n = arrays.len();
    let ghost vseq = dict_values_seq(arrays@);
    let first_vals: &Arc<ArrayData> = arrays[0].dict_values();
    let ghost fv = arc_inner(first_vals);
    proof {
        assert(arrays@[0] matches ArrayData::Dictionary { values, .. } ==> fv == *values
            && fv.wf() && !fv.is_dictionary());
        assert forall|t: int| 0 <= t < n implies (#[trigger] vseq[t]).wf()
            && !vseq[t].is_dictionary() && vseq[t].dtype() == vseq[0].dtype() by {
            assert(arrays@[t].wf());
            assert(arrays@[t].dtype() == arrays@[0].dtype());
        }
    }
    let mut all_shared = true;
    let mut i: usize = 0;
    while i < n
        invariant
            i <= n,
            all_shared ==> (forall|t: int|
                0 <= t < i ==> ((#[trigger] arrays@[t]) matches ArrayData::Dictionary {
                    values,
                    ..
                } ==> *values == fv)),
        decreases n - i,
    {
        let v = arrays[i].dict_values();
        if !same_data(first_vals, v) {
            all_shared = false;
        }
        proof {
            assert(arrays@[i as int] matches ArrayData::Dictionary { values, .. } ==> *v
                == *values);
        }
        i = i + 1;
    }
    let merged: Arc<ArrayData>;
    let reused = all_shared;
    if all_shared {
        merged = arc_dup(first_vals);
    } else {
        let mut parts: Vec<ArrayData> = Vec::new();
        let mut p: usize = 0;
        while p < n
            invariant
                p <= n,
                parts@.len() == p,
                forall|t: int| 0 <= t < p ==> parts@[t] == vseq[t],
            decreases n - p,
        {
            match &arrays[p] {
                ArrayData::Dictionary { values, .. } => {
                    parts.push(values.share());
                },
                _ => {
                    proof {
                        assert(false);
                    }
                },
            }
            p = p + 1;
        }
        proof {
            assert(parts@ =~= vseq);
        }
        let inner = concat_flat(&parts);
        merged = Arc::new(inner);
    }
    proof {
        assert((*merged).wf());
        assert(arrays@[0] matches ArrayData::Dictionary { values, .. } ==> (*merged).dtype() == (
        *values).dtype());
        if !reused {
            assert((*merged)@ == concat_views(vseq));
            assert((*merged).spec_len() == sum_lens(vseq));
        }
    }
    let k0 = arrays[0].dict_keys();
    match k0 {
        ArrayData::Int8 { .. } => build_dict8(arrays, merged, reused),
        ArrayData::Int32 { .. } => build_dict32(arrays, merged, reused),
        _ => {
            proof {
                assert(arrays@[0].wf());
                assert(false);
            }
            arrays[0].share()
        },
    }
}

/// Concatenates multiple arrays of the same logical type into a single
/// array, preserving element order and null semantics.  A single input
/// is returned as a zero-copy slice of itself; an empty input or mixed
/// logical types are rejected.
#[verifier::loop_isolation(false)]
pub fn concat(arrays: &Vec<ArrayData>) -> (r: Result<ArrayData, ConcatError>)
    requires
        forall|i: int| 0 <= i < arrays@.len() ==> (#[trigger] arrays@[i]).wf(),
        concat_fits(arrays@),
    ensures
        match r {
            Result::Ok(out) => arrays@.len() > 0 && (arrays@.len() == 1 || all_same_type(
                arrays@,
            )) && out.wf() && out.dtype() == arrays@[0].dtype() && out@ == concat_views(arrays@)
                && out.spec_len() == sum_lens(arrays@) && (arrays@.len() > 1 && (arrays@[0]
                matches ArrayData::Utf8 { .. }) ==> (out matches ArrayData::Utf8 { values, .. }
                && values.spec_capacity() == spec_round64(str_hint(arrays@)))) && (arrays@.len()
                > 1 && (arrays@[0] matches ArrayData::LargeUtf8 { .. }) ==> (out matches
            ArrayData::LargeUtf8 { values, .. } && values.spec_capacity() == spec_round64(
                str_hint(arrays@),
            ))),
            Result::Err(e) => (arrays@.len() == 0 && e == ConcatError::EmptyInput) || (
            arrays@.len() > 1 && !all_same_type(arrays@) && e == ConcatError::TypeMismatch),
        },
        r is Err <==> (arrays@.len() == 0 || (arrays@.len() > 1 && !all_same_type(arrays@))),
{
    let n = arrays.len();
    if n == 0 {
        return Result::Err(ConcatError::EmptyInput);
    }
    if n == 1 {
        let a = &arrays[0];
        let out = a.slice(0, a.len());
        proof {
            a.lemma_view_len();
            assert(views_upto(arrays@, 0) == Seq::<Val>::empty());
            assert(sum_lens_upto(arrays@, 0) == 0);
            assert(concat_views(arrays@) == views_upto(arrays@, 0) + arrays@[0]@);
            assert(out@ =~= concat_views(arrays@));
        }
        return Result::Ok(out);
    }
    let t0 = arrays[0].data_type();
    let mut i: usize = 1;
    while i < n
        invariant
            1 <= i <= n,
            t0 == arrays@[0].dtype(),
            forall|t: int| 0 <= t < i ==> (#[trigger] arrays@[t].dtype()) == arrays@[0].dtype(),
        decreases n - i,
    {
        let ti = arrays[i].data_type();
        if !crate::datatype::same_type(&t0, &ti) {
            proof {
                assert(arrays@[i as int].dtype() != arrays@[0].dtype());
                assert(!all_same_type(arrays@));
            }
            return Result::Err(ConcatError::TypeMismatch);
        }
        i = i + 1;
    }
    proof {
        assert(all_same_type(arrays@));
    }
    let out = match &arrays[0] {
        ArrayData::Dictionary { .. } => {
            proof {
                assert forall|t: int|
                    0 <= t < arrays@.len() implies (#[trigger] arrays@[t]) matches
                    ArrayData::Dictionary { .. } by {
                    assert(arrays@[t].dtype() == arrays@[0].dtype());
                }
            }
            concat_dictionary(arrays)
        },
        _ => concat_flat(arrays),
    };
    Result::Ok(out)
}

} // verus!
