use std::sync::Arc;
use vstd::prelude::*;

use crate::array::{ArrayData, Val};
use crate::bitmap::Bitmap;
use crate::buffer::Buffer;
use crate::datatype::DataType;

verus! {

pub open spec fn opt_i8_val(x: Option<i8>) -> Val {
    match x {
        Option::Some(t) => Val::I8(t),
        Option::None => Val::Null,
    }
}

pub open spec fn opt_i32_val(x: Option<i32>) -> Val {
    match x {
        Option::Some(t) => Val::I32(t),
        Option::None => Val::Null,
    }
}

pub open spec fn opt_i64_val(x: Option<i64>) -> Val {
    match x {
        Option::Some(t) => Val::I64(t),
        Option::None => Val::Null,
    }
}

pub open spec fn opt_bool_val(x: Option<bool>) -> Val {
    match x {
        Option::Some(t) => Val::BoolV(t),
        Option::None => Val::Null,
    }
}

/// The logical value of one optional string.
pub open spec fn str_val(x: Option<Vec<u8>>) -> Val {
    match x {
        Option::Some(b) => Val::Bytes(b@),
        Option::None => Val::Null,
    }
}

pub open spec fn opt_has_none<T>(v: Seq<Option<T>>) -> bool {
    exists|j: int| 0 <= j < v.len() && v[j] is None
}

/// Total byte length of the first `n` strings (a null counts as zero).
pub open spec fn str_bytes_upto(v: Seq<Option<Vec<u8>>>, n: int) -> int
    decreases n,
{
    if n <= 0 {
        0
    } else {
        str_bytes_upto(v, n - 1) + (match v[n - 1] {
            Option::Some(b) => b@.len() as int,
            Option::None => 0,
        })
    }
}

/// Total byte length of all the strings.
pub open spec fn total_str_bytes(v: Seq<Option<Vec<u8>>>) -> int {
    str_bytes_upto(v, v.len() as int)
}

pub proof fn lemma_str_bytes_mono(v: Seq<Option<Vec<u8>>>, a: int, b: int)
    requires
        0 <= a <= b,
    ensures
        str_bytes_upto(v, a) <= str_bytes_upto(v, b),
        0 <= str_bytes_upto(v, a),
    decreases b,
{
    if a < b {
        lemma_str_bytes_mono(v, a, b - 1);
    } else {
        if 0 < a {
            lemma_str_bytes_mono(v, 0, a - 1);
        }
    }
}

/// The concatenated bytes of the first `n` strings.
pub open spec fn str_data_upto(v: Seq<Option<Vec<u8>>>, n: int) -> Seq<u8>
    decreases n,
{
    if n <= 0 {
        Seq::empty()
    } else {
        str_data_upto(v, n - 1) + (match v[n - 1] {
            Option::Some(b) => b@,
            Option::None => Seq::empty(),
        })
    }
}

pub proof fn lemma_str_data_len(v: Seq<Option<Vec<u8>>>, n: int)
    requires
        0 <= n,
    ensures
        str_data_upto(v, n).len() == str_bytes_upto(v, n),
    decreases n,
{
    if 0 < n {
        lemma_str_data_len(v, n - 1);
    }
}

/// Within the concatenated bytes, string `j` occupies exactly the span
/// between the running totals at `j` and `j + 1`.
pub proof fn lemma_str_data_segment(v: Seq<Option<Vec<u8>>>, n: int, j: int)
    requires
        0 <= j < n,
    ensures
        str_data_upto(v, n).subrange(str_bytes_upto(v, j), str_bytes_upto(v, j + 1)) == (match v[j] {
            Option::Some(b) => b@,
            Option::None => Seq::<u8>::empty(),
        }),
    decreases n,
{
    lemma_str_data_len(v, n);
    lemma_str_data_len(v, n - 1);
    lemma_str_bytes_mono(v, 0, j);
    lemma_str_bytes_mono(v, j, j + 1);
    if j == n - 1 {
        assert(str_data_upto(v, n).subrange(str_bytes_upto(v, j), str_bytes_upto(v, j + 1))
            =~= (match v[j] {
            Option::Some(b) => b@,
            Option::None => Seq::<u8>::empty(),
        }));
    } else {
        lemma_str_data_segment(v, n - 1, j);
        lemma_str_bytes_mono(v, j + 1, n - 1);
        assert(str_data_upto(v, n).subrange(str_bytes_upto(v, j), str_bytes_upto(v, j + 1))
            =~= str_data_upto(v, n - 1).subrange(str_bytes_upto(v, j), str_bytes_upto(v, j + 1)));
    }
}

/// Builds a validity mask from per-element options: the mask is present
/// only when at least one element is missing.
fn build_mask<T>(bits: Vec<bool>, any_null: bool) -> (r: Option<Bitmap>)
    requires
        any_null ==> bits@.len() > 0,
    ensures
        r.is_some() == any_null,
        (r matches Option::Some(b) ==> b@ == bits@),
{
    if any_null {
        Option::Some(Bitmap::from_vec(bits))
    } else {
        Option::None
    }
}

/// A fixed-width 8-bit integer array from optional values.
pub fn int8_array(items: Vec<Option<i8>>) -> (r: ArrayData)
    ensures
        r.wf(),
        r.dtype() == DataType::Int8,
        r.spec_len() == items@.len(),
        r.spec_offset() == 0,
        r@ == items@.map_values(|x: Option<i8>| opt_i8_val(x)),
        r.has_mask() == opt_has_none(items@),
        forall|j: int| 0 <= j < items@.len() ==> r.valid_idx(j) == (items@[j] is Some),
        forall|j: int|
            #![trigger r.int_at(j)]
            0 <= j < items@.len() ==> (items@[j] matches Option::Some(t) ==> r.int_at(j) == t),
{
    let n = items.len();
    let mut vals: Vec<i8> = Vec::new();
    let mut bits: Vec<bool> = Vec::new();
    let mut any_null = false;
    let mut i: usize = 0;
    while i < n
        invariant
            n == items@.len(),
            i <= n,
            vals@.len() == i,
            bits@.len() == i,
            forall|j: int| 0 <= j < i ==> bits@[j] == (items@[j] is Some),
            forall|j: int|
                #![trigger vals@[j]]
                0 <= j < i ==> (items@[j] matches Option::Some(t) ==> vals@[j] == t),
            any_null == (exists|j: int| 0 <= j < i && items@[j] is None),
        decreases n - i,
    {
        match items[i] {
            Option::Some(t) => {
                vals.push(t);
                bits.push(true);
            },
            Option::None => {
                vals.push(0);
                bits.push(false);
                any_null = true;
            },
        }
        i = i + 1;
    }
    let nulls = build_mask::<i8>(bits, any_null);
    let r = ArrayData::Int8 { len: n, offset: 0, values: Buffer::from_vec(vals), nulls };
    proof {
        r.lemma_view_len();
        assert(r@ =~= items@.map_values(|x: Option<i8>| opt_i8_val(x)));
    }
    r
}

/// A fixed-width 32-bit integer array from optional values.
pub fn int32_array(items: Vec<Option<i32>>) -> (r: ArrayData)
    ensures
        r.wf(),
        r.dtype() == DataType::Int32,
        r.spec_len() == items@.len(),
        r.spec_offset() == 0,
        r@ == items@.map_values(|x: Option<i32>| opt_i32_val(x)),
        r.has_mask() == opt_has_none(items@),
        forall|j: int| 0 <= j < items@.len() ==> r.valid_idx(j) == (items@[j] is Some),
        forall|j: int|
            #![trigger r.int_at(j)]
            0 <= j < items@.len() ==> (items@[j] matches Option::Some(t) ==> r.int_at(j) == t),
{
    let n = items.len();
    let mut vals: Vec<i32> = Vec::new();
    let mut bits: Vec<bool> = Vec::new();
    let mut any_null = false;
    let mut i: usize = 0;
    while i < n
        invariant
            n == items@.len(),
            i <= n,
            vals@.len() == i,
            bits@.len() == i,
            forall|j: int| 0 <= j < i ==> bits@[j] == (items@[j] is Some),
            forall|j: int|
                #![trigger vals@[j]]
                0 <= j < i ==> (items@[j] matches Option::Some(t) ==> vals@[j] == t),
            any_null == (exists|j: int| 0 <= j < i && items@[j] is None),
        decreases n - i,
    {
        match items[i] {
            Option::Some(t) => {
                vals.push(t);
                bits.push(true);
            },
            Option::None => {
                vals.push(0);
                bits.push(false);
                any_null = true;
            },
        }
        i = i + 1;
    }
    let nulls = build_mask::<i32>(bits, any_null);
    let r = ArrayData::Int32 { len: n, offset: 0, values: Buffer::from_vec(vals), nulls };
    proof {
        r.lemma_view_len();
        assert(r@ =~= items@.map_values(|x: Option<i32>| opt_i32_val(x)));
    }
    r
}

/// A fixed-width 64-bit integer array from optional values.
pub fn int64_array(items: Vec<Option<i64>>) -> (r: ArrayData)
    ensures
        r.wf(),
        r.dtype() == DataType::Int64,
        r.spec_len() == items@.len(),
        r.spec_offset() == 0,
        r@ == items@.map_values(|x: Option<i64>| opt_i64_val(x)),
        r.has_mask() == opt_has_none(items@),
{
    let n = items.len();
    let mut vals: Vec<i64> = Vec::new();
    let mut bits: Vec<bool> = Vec::new();
    let mut any_null = false;
    let mut i: usize = 0;
    while i < n
        invariant
            n == items@.len(),
            i <= n,
            vals@.len() == i,
            bits@.len() == i,
            forall|j: int| 0 <= j < i ==> bits@[j] == (items@[j] is Some),
            forall|j: int|
                #![trigger vals@[j]]
                0 <= j < i ==> (items@[j] matches Option::Some(t) ==> vals@[j] == t),
            any_null == (exists|j: int| 0 <= j < i && items@[j] is None),
        decreases n - i,
    {
        match items[i] {
            Option::Some(t) => {
                vals.push(t);
                bits.push(true);
            },
            Option::None => {
                vals.push(0);
                bits.push(false);
                any_null = true;
            },
        }
        i = i + 1;
    }
    let nulls = build_mask::<i64>(bits, any_null);
    let r = ArrayData::Int64 { len: n, offset: 0, values: Buffer::from_vec(vals), nulls };
    proof {
        r.lemma_view_len();
        assert(r@ =~= items@.map_values(|x: Option<i64>| opt_i64_val(x)));
    }
    r
}

/// A boolean array from optional values.
pub fn boolean_array(items: Vec<Option<bool>>) -> (r: ArrayData)
    ensures
        r.wf(),
        r.dtype() == DataType::Boolean,
        r.spec_len() == items@.len(),
        r.spec_offset() == 0,
        r@ == items@.map_values(|x: Option<bool>| opt_bool_val(x)),
        r.has_mask() == opt_has_none(items@),
{
    let n = items.len();
    let mut vals: Vec<bool> = Vec::new();
    let mut bits: Vec<bool> = Vec::new();
    let mut any_null = false;
    let mut i: usize = 0;
    while i < n
        invariant
            n == items@.len(),
            i <= n,
            vals@.len() == i,
            bits@.len() == i,
            forall|j: int| 0 <= j < i ==> bits@[j] == (items@[j] is Some),
            forall|j: int|
                #![trigger vals@[j]]
                0 <= j < i ==> (items@[j] matches Option::Some(t) ==> vals@[j] == t),
            any_null == (exists|j: int| 0 <= j < i && items@[j] is None),
        decreases n - i,
    {
        match items[i] {
            Option::Some(t) => {
                vals.push(t);
                bits.push(true);
            },
            Option::None => {
                vals.push(false);
                bits.push(false);
                any_null = true;
            },
        }
        i = i + 1;
    }
    let nulls = build_mask::<bool>(bits, any_null);
    let r = ArrayData::Boolean { len: n, offset: 0, values: Buffer::from_vec(vals), nulls };
    proof {
        r.lemma_view_len();
        assert(r@ =~= items@.map_values(|x: Option<bool>| opt_bool_val(x)));
    }
    r
}

/// A variable-length string array with 32-bit offsets, built from
/// optional strings given as byte vectors.
pub fn utf8_array(items: Vec<Option<Vec<u8>>>) -> (r: ArrayData)
    requires
        total_str_bytes(items@) <= i32::MAX,
    ensures
        r.wf(),
        r.dtype() == DataType::Utf8,
        r.spec_len() == items@.len(),
        r.spec_offset() == 0,
        r@ == items@.map_values(|x: Option<Vec<u8>>| str_val(x)),
        r.has_mask() == opt_has_none(items@),
{
    let n = items.len();
    let mut offs: Vec<i32> = Vec::new();
    offs.push(0);
    let mut data: Vec<u8> = Vec::new();
    let mut bits: Vec<bool> = Vec::new();
    let mut any_null = false;
    let mut i: usize = 0;
    while i < n
        invariant
            n == items@.len(),
            total_str_bytes(items@) <= i32::MAX,
            i <= n,
            offs@.len() == i + 1,
            forall|j: int| 0 <= j <= i ==> offs@[j] == str_bytes_upto(items@, j),
            data@ == str_data_upto(items@, i as int),
            bits@.len() == i,
            forall|j: int| 0 <= j < i ==> bits@[j] == (items@[j] is Some),
            any_null == (exists|j: int| 0 <= j < i && items@[j] is None),
        decreases n - i,
    {
        proof {
            lemma_str_data_len(items@, i as int);
            lemma_str_bytes_mono(items@, i + 1, n as int);
            lemma_str_bytes_mono(items@, i as int, i + 1);
        }
        match &items[i] {
            Option::Some(b) => {
                let m = b.len();
                let mut k: usize = 0;
                while k < m
                    invariant
                        k <= m,
                        m == b@.len(),
                        data@ == str_data_upto(items@, i as int) + b@.subrange(0, k as int),
                    decreases m - k,
                {
                    data.push(b[k]);
                    proof {
                        assert(data@ =~= str_data_upto(items@, i as int) + b@.subrange(
                            0,
                            k + 1,
                        ));
                    }
                    k = k + 1;
                }
                bits.push(true);
            },
            Option::None => {
                bits.push(false);
                any_null = true;
            },
        }
        proof {
            assert(data@ =~= str_data_upto(items@, i + 1));
            lemma_str_data_len(items@, i + 1);
        }
        let off_val = data.len();
        offs.push(off_val as i32);
        i = i + 1;
    }
    let nulls = build_mask::<Vec<u8>>(bits, any_null);
    proof {
        lemma_str_data_len(items@, n as int);
        assert forall|j: int| 0 <= j < n + 1 implies 0 <= #[trigger] offs@[j] <= data@.len() by {
            lemma_str_bytes_mono(items@, 0, j);
            lemma_str_bytes_mono(items@, j, n as int);
        }
    }
    let r = ArrayData::Utf8 {
        len: n,
        offset: 0,
        offsets: Buffer::from_vec(offs),
        values: Buffer::from_vec(data),
        nulls,
    };
    proof {
        r.lemma_view_len();
        lemma_str_data_len(items@, n as int);
        assert forall|j1: int, j2: int|
            0 <= j1 <= j2 < n + 1 implies str_bytes_upto(items@, j1) <= str_bytes_upto(
            items@,
            j2,
        ) by {
            lemma_str_bytes_mono(items@, j1, j2);
        }
        assert forall|j: int| 0 <= j < n implies r@[j] == items@.map_values(
            |x: Option<Vec<u8>>| str_val(x),
        )[j] by {
            lemma_str_data_segment(items@, n as int, j);
        }
        assert(r@ =~= items@.map_values(|x: Option<Vec<u8>>| str_val(x)));
    }
    r
}

/// A variable-length string array with 64-bit offsets, built from
/// optional strings given as byte vectors.
pub fn large_utf8_array(items: Vec<Option<Vec<u8>>>) -> (r: ArrayData)
    requires
        total_str_bytes(items@) <= i64::MAX,
    ensures
        r.wf(),
        r.dtype() == DataType::LargeUtf8,
        r.spec_len() == items@.len(),
        r.spec_offset() == 0,
        r@ == items@.map_values(|x: Option<Vec<u8>>| str_val(x)),
        r.has_mask() == opt_has_none(items@),
{
    let n = items.len();
    let mut offs: Vec<i64> = Vec::new();
    offs.push(0);
    let mut data: Vec<u8> = Vec::new();
    let mut bits: Vec<bool> = Vec::new();
    let mut any_null = false;
    let mut i: usize = 0;
    while i < n
        invariant
            n == items@.len(),
            total_str_bytes(items@) <= i64::MAX,
            i <= n,
            offs@.len() == i + 1,
            forall|j: int| 0 <= j <= i ==> offs@[j] == str_bytes_upto(items@, j),
            data@ == str_data_upto(items@, i as int),
            bits@.len() == i,
            forall|j: int| 0 <= j < i ==> bits@[j] == (items@[j] is Some),
            any_null == (exists|j: int| 0 <= j < i && items@[j] is None),
        decreases n - i,
    {
        proof {
            lemma_str_data_len(items@, i as int);
            lemma_str_bytes_mono(items@, i + 1, n as int);
            lemma_str_bytes_mono(items@, i as int, i + 1);
        }
        match &items[i] {
            Option::Some(b) => {
                let m = b.len();
                let mut k: usize = 0;
                while k < m
                    invariant
                        k <= m,
                        m == b@.len(),
                        data@ == str_data_upto(items@, i as int) + b@.subrange(0, k as int),
                    decreases m - k,
                {
                    data.push(b[k]);
                    proof {
                        assert(data@ =~= str_data_upto(items@, i as int) + b@.subrange(
                            0,
                            k + 1,
                        ));
                    }
                    k = k + 1;
                }
                bits.push(true);
            },
            Option::None => {
                bits.push(false);
                any_null = true;
            },
        }
        proof {
            assert(data@ =~= str_data_upto(items@, i + 1));
            lemma_str_data_len(items@, i + 1);
        }
        let off_val = data.len();
        offs.push(off_val as i64);
        i = i + 1;
    }
    let nulls = build_mask::<Vec<u8>>(bits, any_null);
    proof {
        lemma_str_data_len(items@, n as int);
        assert forall|j: int| 0 <= j < n + 1 implies 0 <= #[trigger] offs@[j] <= data@.len() by {
            lemma_str_bytes_mono(items@, 0, j);
            lemma_str_bytes_mono(items@, j, n as int);
        }
    }
    let r = ArrayData::LargeUtf8 {
        len: n,
        offset: 0,
        offsets: Buffer::from_vec(offs),
        values: Buffer::from_vec(data),
        nulls,
    };
    proof {
        r.lemma_view_len();
        lemma_str_data_len(items@, n as int);
        assert forall|j1: int, j2: int|
            0 <= j1 <= j2 < n + 1 implies str_bytes_upto(items@, j1) <= str_bytes_upto(
            items@,
            j2,
        ) by {
            lemma_str_bytes_mono(items@, j1, j2);
        }
        assert forall|j: int| 0 <= j < n implies r@[j] == items@.map_values(
            |x: Option<Vec<u8>>| str_val(x),
        )[j] by {
            lemma_str_data_segment(items@, n as int, j);
        }
        assert(r@ =~= items@.map_values(|x: Option<Vec<u8>>| str_val(x)));
    }
    r
}

/// The dereferenced view of a dictionary: each valid key picks the
/// corresponding element of the values array, an invalid key is null.
pub open spec fn dict_deref(keys: ArrayData, values: ArrayData) -> Seq<Val> {
    Seq::new(
        keys.spec_len() as nat,
        |i: int|
            if keys.valid_idx(i) {
                values.logical()[keys.int_at(i)]
            } else {
                Val::Null
            },
    )
}

/// All valid keys index within the values array.
pub open spec fn keys_in_bounds(keys: ArrayData, values: ArrayData) -> bool {
    forall|i: int|
        0 <= i < keys.spec_len() && keys.valid_idx(i) ==> 0 <= #[trigger] keys.int_at(i)
            < values.spec_len()
}

/// A dictionary-encoded array from an integer key array and a shared
/// values array.  Returns nothing when some valid key is out of bounds.
pub fn dictionary_array(keys: ArrayData, values: ArrayData) -> (r: Option<ArrayData>)
    requires
        keys.wf(),
        values.wf(),
        keys.is_integer_keys(),
        !values.is_dictionary(),
    ensures
        r.is_some() == keys_in_bounds(keys, values),
        (r matches Option::Some(d) ==> d.wf() && d.spec_len() == keys.spec_len() && d@
            == dict_deref(keys, values) && d.has_mask() == keys.has_mask() && (
        d matches ArrayData::Dictionary { keys: dk, values: dv } ==> *dk == keys && *dv
            == values)),
{
    let n = keys.len();
    let vlen = values.len();
    let mut i: usize = 0;
    while i < n
        invariant
            n == keys.spec_len(),
            vlen == values.spec_len(),
            keys.wf(),
            values.wf(),
            keys.is_integer_keys(),
            i <= n,
            forall|j: int|
                0 <= j < i && keys.valid_idx(j) ==> 0 <= #[trigger] keys.int_at(j)
                    < values.spec_len(),
        decreases n - i,
    {
        if keys.is_valid(i) {
            let k = keys.key_int(i);
            if k < 0 || (k as u64) >= (vlen as u64) {
                proof {
                    assert(!(0 <= keys.int_at(i as int) < values.spec_len()));
                }
                return Option::None;
            }
        }
        i = i + 1;
    }
    let d = ArrayData::Dictionary { keys: Box::new(keys), values: Arc::new(values) };
    proof {
        d.lemma_view_len();
        assert(d@ =~= dict_deref(keys, values));
    }
    Option::Some(d)
}

} // verus!
