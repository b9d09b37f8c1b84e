use std::sync::Arc;
use vstd::prelude::*;

use crate::bitmap::Bitmap;
use crate::buffer::{arc_dup, arc_same, Buffer};
use crate::datatype::DataType;

verus! {

/// The logical value of a single array element, with dictionary keys
/// already dereferenced into the dictionary's values.
pub enum Val {
    Null,
    I8(i8),
    I32(i32),
    I64(i64),
    BoolV(bool),
    Bytes(Seq<u8>),
}

/// Validity of position `j` under an optional mask: a missing mask means
/// every position is valid.
pub open spec fn mask_ok(m: Option<Bitmap>, j: int) -> bool {
    match m {
        Option::None => true,
        Option::Some(b) => b@[j],
    }
}

/// The optional mask covers at least `n` positions.
pub open spec fn mask_covers(m: Option<Bitmap>, n: int) -> bool {
    match m {
        Option::None => true,
        Option::Some(b) => b@.len() >= n,
    }
}

/// An immutable storage record: the data type tag, a logical length, a
/// starting offset for zero-copy slicing, the raw buffers of the layout,
/// an optional validity mask, and (for dictionaries) a shared child
/// record.  Records are created once and never mutated.
#[allow(inconsistent_fields)]
#[derive(Debug)]
pub enum ArrayData {
    Int8 { len: usize, offset: usize, values: Buffer<i8>, nulls: Option<Bitmap> },
    Int32 { len: usize, offset: usize, values: Buffer<i32>, nulls: Option<Bitmap> },
    Int64 { len: usize, offset: usize, values: Buffer<i64>, nulls: Option<Bitmap> },
    Boolean { len: usize, offset: usize, values: Buffer<bool>, nulls: Option<Bitmap> },
    Utf8 {
        len: usize,
        offset: usize,
        offsets: Buffer<i32>,
        values: Buffer<u8>,
        nulls: Option<Bitmap>,
    },
    LargeUtf8 {
        len: usize,
        offset: usize,
        offsets: Buffer<i64>,
        values: Buffer<u8>,
        nulls: Option<Bitmap>,
    },
    Dictionary { keys: Box<ArrayData>, values: Arc<ArrayData> },
}

impl ArrayData {
    /// The logical number of elements in the view.
    pub open spec fn spec_len(&self) -> usize
        decreases self,
    {
        match self {
            ArrayData::Int8 { len, .. } => *len,
            ArrayData::Int32 { len, .. } => *len,
            ArrayData::Int64 { len, .. } => *len,
            ArrayData::Boolean { len, .. } => *len,
            ArrayData::Utf8 { len, .. } => *len,
            ArrayData::LargeUtf8 { len, .. } => *len,
            ArrayData::Dictionary { keys, .. } => keys.spec_len(),
        }
    }

    /// The starting offset of the view into its storage.
    pub open spec fn spec_offset(&self) -> usize
        decreases self,
    {
        match self {
            ArrayData::Int8 { offset, .. } => *offset,
            ArrayData::Int32 { offset, .. } => *offset,
            ArrayData::Int64 { offset, .. } => *offset,
            ArrayData::Boolean { offset, .. } => *offset,
            ArrayData::Utf8 { offset, .. } => *offset,
            ArrayData::LargeUtf8 { offset, .. } => *offset,
            ArrayData::Dictionary { keys, .. } => keys.spec_offset(),
        }
    }

    /// Whether a validity mask is present anywhere in the record (for a
    /// dictionary: on its keys).
    pub open spec fn has_mask(&self) -> bool
        decreases self,
    {
        match self {
            ArrayData::Int8 { nulls, .. } => nulls.is_some(),
            ArrayData::Int32 { nulls, .. } => nulls.is_some(),
            ArrayData::Int64 { nulls, .. } => nulls.is_some(),
            ArrayData::Boolean { nulls, .. } => nulls.is_some(),
            ArrayData::Utf8 { nulls, .. } => nulls.is_some(),
            ArrayData::LargeUtf8 { nulls, .. } => nulls.is_some(),
            ArrayData::Dictionary { keys, .. } => keys.has_mask(),
        }
    }

    /// Validity of logical position `i` of the view.
    pub open spec fn valid_idx(&self, i: int) -> bool
        decreases self,
    {
        match self {
            ArrayData::Int8 { offset, nulls, .. } => mask_ok(*nulls, *offset + i),
            ArrayData::Int32 { offset, nulls, .. } => mask_ok(*nulls, *offset + i),
            ArrayData::Int64 { offset, nulls, .. } => mask_ok(*nulls, *offset + i),
            ArrayData::Boolean { offset, nulls, .. } => mask_ok(*nulls, *offset + i),
            ArrayData::Utf8 { offset, nulls, .. } => mask_ok(*nulls, *offset + i),
            ArrayData::LargeUtf8 { offset, nulls, .. } => mask_ok(*nulls, *offset + i),
            ArrayData::Dictionary { keys, .. } => keys.valid_idx(i),
        }
    }

    /// The integer stored at logical position `i`, for the fixed-width
    /// integer layouts (used for dictionary keys).
    pub open spec fn int_at(&self, i: int) -> int {
        match self {
            ArrayData::Int8 { offset, values, .. } => values@[*offset + i] as int,
            ArrayData::Int32 { offset, values, .. } => values@[*offset + i] as int,
            ArrayData::Int64 { offset, values, .. } => values@[*offset + i] as int,
            _ => 0,
        }
    }

    /// Whether this record is one of the integer layouts allowed as
    /// dictionary keys.
    pub open spec fn is_integer_keys(&self) -> bool {
        self matches ArrayData::Int8 { .. } || self matches ArrayData::Int32 { .. }
    }

    pub open spec fn is_dictionary(&self) -> bool {
        self matches ArrayData::Dictionary { .. }
    }

    /// The logical data type tag of this record.
    pub open spec fn dtype(&self) -> DataType
        decreases self,
    {
        match self {
            ArrayData::Int8 { .. } => DataType::Int8,
            ArrayData::Int32 { .. } => DataType::Int32,
            ArrayData::Int64 { .. } => DataType::Int64,
            ArrayData::Boolean { .. } => DataType::Boolean,
            ArrayData::Utf8 { .. } => DataType::Utf8,
            ArrayData::LargeUtf8 { .. } => DataType::LargeUtf8,
            ArrayData::Dictionary { keys, values } => DataType::Dictionary(
                Box::new(keys.dtype()),
                Box::new((**values).dtype()),
            ),
        }
    }

    /// The logical view: one [`Val`] per element, in order, with nulls
    /// explicit and dictionary keys dereferenced.
    pub open spec fn logical(&self) -> Seq<Val>
        decreases self,
    {
        match self {
            ArrayData::Int8 { len, offset, values, nulls } => Seq::new(
                *len as nat,
                |i: int|
                    if mask_ok(*nulls, *offset + i) {
                        Val::I8(values@[*offset + i])
                    } else {
                        Val::Null
                    },
            ),
            ArrayData::Int32 { len, offset, values, nulls } => Seq::new(
                *len as nat,
                |i: int|
                    if mask_ok(*nulls, *offset + i) {
                        Val::I32(values@[*offset + i])
                    } else {
                        Val::Null
                    },
            ),
            ArrayData::Int64 { len, offset, values, nulls } => Seq::new(
                *len as nat,
                |i: int|
                    if mask_ok(*nulls, *offset + i) {
                        Val::I64(values@[*offset + i])
                    } else {
                        Val::Null
                    },
            ),
            ArrayData::Boolean { len, offset, values, nulls } => Seq::new(
                *len as nat,
                |i: int|
                    if mask_ok(*nulls, *offset + i) {
                        Val::BoolV(values@[*offset + i])
                    } else {
                        Val::Null
                    },
            ),
            ArrayData::Utf8 { len, offset, offsets, values, nulls } => Seq::new(
                *len as nat,
                |i: int|
                    if mask_ok(*nulls, *offset + i) {
                        Val::Bytes(
                            values@.subrange(
                                offsets@[*offset + i] as int,
                                offsets@[*offset + i + 1] as int,
                            ),
                        )
                    } else {
                        Val::Null
                    },
            ),
            ArrayData::LargeUtf8 { len, offset, offsets, values, nulls } => Seq::new(
                *len as nat,
                |i: int|
                    if mask_ok(*nulls, *offset + i) {
                        Val::Bytes(
                            values@.subrange(
                                offsets@[*offset + i] as int,
                                offsets@[*offset + i + 1] as int,
                            ),
                        )
                    } else {
                        Val::Null
                    },
            ),
            ArrayData::Dictionary { keys, values } => Seq::new(
                keys.spec_len() as nat,
                |i: int|
                    if keys.valid_idx(i) {
                        (**values).logical()[keys.int_at(i)]
                    } else {
                        Val::Null
                    },
            ),
        }
    }

    /// Well-formedness: buffers cover the view, variable-length offsets
    /// are monotone and within the values buffer, dictionary keys are in
    /// bounds of the dictionary.
    pub open spec fn wf(&self) -> bool
        decreases self,
    {
        match self {
            ArrayData::Int8 { len, offset, values, nulls } => values.wf() && *offset + *len
                <= values@.len() && mask_covers(*nulls, *offset + *len),
            ArrayData::Int32 { len, offset, values, nulls } => values.wf() && *offset + *len
                <= values@.len() && mask_covers(*nulls, *offset + *len),
            ArrayData::Int64 { len, offset, values, nulls } => values.wf() && *offset + *len
                <= values@.len() && mask_covers(*nulls, *offset + *len),
            ArrayData::Boolean { len, offset, values, nulls } => values.wf() && *offset + *len
                <= values@.len() && mask_covers(*nulls, *offset + *len),
            ArrayData::Utf8 { len, offset, offsets, values, nulls } => values.wf() && offsets.wf()
                && *offset + *len + 1 <= offsets@.len() && mask_covers(*nulls, *offset + *len) && (
            forall|j: int| 0 <= j < offsets@.len() ==> 0 <= #[trigger] offsets@[j] <= values@.len()) && (
            forall|j1: int, j2: int|
                0 <= j1 <= j2 < offsets@.len() ==> #[trigger] offsets@[j1] <= #[trigger] offsets@[j2]),
            ArrayData::LargeUtf8 { len, offset, offsets, values, nulls } => values.wf()
                && offsets.wf() && *offset + *len + 1 <= offsets@.len() && mask_covers(
                *nulls,
                *offset + *len,
            ) && (forall|j: int| 0 <= j < offsets@.len() ==> 0 <= #[trigger] offsets@[j] <= values@.len()) && (
            forall|j1: int, j2: int|
                0 <= j1 <= j2 < offsets@.len() ==> #[trigger] offsets@[j1] <= #[trigger] offsets@[j2]),
            ArrayData::Dictionary { keys, values } => keys.wf() && (**values).wf()
                && keys.is_integer_keys() && !(**values).is_dictionary() && (forall|i: int|
                0 <= i < keys.spec_len() && keys.valid_idx(i) ==> 0 <= keys.int_at(i) < (
                **values).spec_len()),
        }
    }
}

impl View for ArrayData {
    type V = Seq<Val>;

    open spec fn view(&self) -> Seq<Val> {
        self.logical()
    }
}

impl ArrayData {
    /// The length of the view equals `spec_len`.
    pub proof fn lemma_view_len(&self)
        ensures
            self@.len() == self.spec_len(),
        decreases self,
    {
    }

    pub fn len(&self) -> (r: usize)
        ensures
            r == self.spec_len(),
        decreases self,
    {
        match self {
            ArrayData::Int8 { len, .. } => *len,
            ArrayData::Int32 { len, .. } => *len,
            ArrayData::Int64 { len, .. } => *len,
            ArrayData::Boolean { len, .. } => *len,
            ArrayData::Utf8 { len, .. } => *len,
            ArrayData::LargeUtf8 { len, .. } => *len,
            ArrayData::Dictionary { keys, .. } => keys.len(),
        }
    }

    pub fn data_type(&self) -> (r: DataType)
        ensures
            r == self.dtype(),
        decreases self,
    {
        match self {
            ArrayData::Int8 { .. } => DataType::Int8,
            ArrayData::Int32 { .. } => DataType::Int32,
            ArrayData::Int64 { .. } => DataType::Int64,
            ArrayData::Boolean { .. } => DataType::Boolean,
            ArrayData::Utf8 { .. } => DataType::Utf8,
            ArrayData::LargeUtf8 { .. } => DataType::LargeUtf8,
            ArrayData::Dictionary { keys, values } => DataType::Dictionary(
                Box::new(keys.data_type()),
                Box::new(values.data_type()),
            ),
        }
    }

    pub fn is_valid(&self, i: usize) -> (r: bool)
        requires
            self.wf(),
            i < self.spec_len(),
        ensures
            r == self.valid_idx(i as int),
        decreases self,
    {
        match self {
            ArrayData::Int8 { offset, nulls, .. } => match nulls {
                Option::Some(b) => b.is_set(*offset + i),
                Option::None => true,
            },
            ArrayData::Int32 { offset, nulls, .. } => match nulls {
                Option::Some(b) => b.is_set(*offset + i),
                Option::None => true,
            },
            ArrayData::Int64 { offset, nulls, .. } => match nulls {
                Option::Some(b) => b.is_set(*offset + i),
                Option::None => true,
            },
            ArrayData::Boolean { offset, nulls, .. } => match nulls {
                Option::Some(b) => b.is_set(*offset + i),
                Option::None => true,
            },
            ArrayData::Utf8 { offset, nulls, .. } => match nulls {
                Option::Some(b) => b.is_set(*offset + i),
                Option::None => true,
            },
            ArrayData::LargeUtf8 { offset, nulls, .. } => match nulls {
                Option::Some(b) => b.is_set(*offset + i),
                Option::None => true,
            },
            ArrayData::Dictionary { keys, .. } => keys.is_valid(i),
        }
    }
}

/// Shares an optional validity mask without copying it.
pub(crate) fn share_mask(m: &Option<Bitmap>) -> (r: Option<Bitmap>)
    ensures
        r == *m,
{
    match m {
        Option::Some(b) => Option::Some(b.share()),
        Option::None => Option::None,
    }
}

impl ArrayData {
    /// A new handle to the same storage: zero-copy sharing of every
    /// buffer, mask and child record.
    pub fn share(&self) -> (r: ArrayData)
        ensures
            r == *self,
        decreases self,
    {
        match self {
            ArrayData::Int8 { len, offset, values, nulls } => ArrayData::Int8 {
                len: *len,
                offset: *offset,
                values: values.share(),
                nulls: share_mask(nulls),
            },
            ArrayData::Int32 { len, offset, values, nulls } => ArrayData::Int32 {
                len: *len,
                offset: *offset,
                values: values.share(),
                nulls: share_mask(nulls),
            },
            ArrayData::Int64 { len, offset, values, nulls } => ArrayData::Int64 {
                len: *len,
                offset: *offset,
                values: values.share(),
                nulls: share_mask(nulls),
            },
            ArrayData::Boolean { len, offset, values, nulls } => ArrayData::Boolean {
                len: *len,
                offset: *offset,
                values: values.share(),
                nulls: share_mask(nulls),
            },
            ArrayData::Utf8 { len, offset, offsets, values, nulls } => ArrayData::Utf8 {
                len: *len,
                offset: *offset,
                offsets: offsets.share(),
                values: values.share(),
                nulls: share_mask(nulls),
            },
            ArrayData::LargeUtf8 { len, offset, offsets, values, nulls } => ArrayData::LargeUtf8 {
                len: *len,
                offset: *offset,
                offsets: offsets.share(),
                values: values.share(),
                nulls: share_mask(nulls),
            },
            ArrayData::Dictionary { keys, values } => ArrayData::Dictionary {
                keys: Box::new(keys.share()),
                values: arc_dup(values),
            },
        }
    }

    /// A zero-copy slice of the view: the same storage with an adjusted
    /// starting offset and length.
    pub fn slice(&self, start: usize, length: usize) -> (r: ArrayData)
        requires
            self.wf(),
            start + length <= self.spec_len(),
        ensures
            r.wf(),
            r.dtype() == self.dtype(),
            r.spec_len() == length,
            r@ == self@.subrange(start as int, start as int + length as int),
            forall|i: int| 0 <= i < length ==> r.valid_idx(i) == self.valid_idx(start + i),
            forall|i: int| 0 <= i < length ==> r.int_at(i) == self.int_at(start + i),
            r.has_mask() == self.has_mask(),
        decreases self,
    {
        proof {
            self.lemma_view_len();
        }
        let r = match self {
            ArrayData::Int8 { len, offset, values, nulls } => ArrayData::Int8 {
                len: length,
                offset: *offset + start,
                values: values.share(),
                nulls: share_mask(nulls),
            },
            ArrayData::Int32 { len, offset, values, nulls } => ArrayData::Int32 {
                len: length,
                offset: *offset + start,
                values: values.share(),
                nulls: share_mask(nulls),
            },
            ArrayData::Int64 { len, offset, values, nulls } => ArrayData::Int64 {
                len: length,
                offset: *offset + start,
                values: values.share(),
                nulls: share_mask(nulls),
            },
            ArrayData::Boolean { len, offset, values, nulls } => ArrayData::Boolean {
                len: length,
                offset: *offset + start,
                values: values.share(),
                nulls: share_mask(nulls),
            },
            ArrayData::Utf8 { len, offset, offsets, values, nulls } => ArrayData::Utf8 {
                len: length,
                offset: *offset + start,
                offsets: offsets.share(),
                values: values.share(),
                nulls: share_mask(nulls),
            },
            ArrayData::LargeUtf8 { len, offset, offsets, values, nulls } => ArrayData::LargeUtf8 {
                len: length,
                offset: *offset + start,
                offsets: offsets.share(),
                values: values.share(),
                nulls: share_mask(nulls),
            },
            ArrayData::Dictionary { keys, values } => ArrayData::Dictionary {
                keys: Box::new(keys.slice(start, length)),
                values: arc_dup(values),
            },
        };
        proof {
            r.lemma_view_len();
            assert forall|i: int| 0 <= i < length implies r.valid_idx(i) == self.valid_idx(
                start + i,
            ) by {
                match (self, &r) {
                    (
                        ArrayData::Dictionary { keys: sk, .. },
                        ArrayData::Dictionary { keys: rk, .. },
                    ) => {
                        assert(rk.valid_idx(i) == sk.valid_idx(start + i));
                    },
                    _ => {},
                }
            }
            assert(r@ =~= self@.subrange(start as int, start as int + length as int));
        }
        r
    }
}

impl ArrayData {
    /// Whether a validity mask is present anywhere in the record.
    pub fn has_validity(&self) -> (r: bool)
        ensures
            r == self.has_mask(),
        decreases self,
    {
        match self {
            ArrayData::Int8 { nulls, .. } => nulls.is_some(),
            ArrayData::Int32 { nulls, .. } => nulls.is_some(),
            ArrayData::Int64 { nulls, .. } => nulls.is_some(),
            ArrayData::Boolean { nulls, .. } => nulls.is_some(),
            ArrayData::Utf8 { nulls, .. } => nulls.is_some(),
            ArrayData::LargeUtf8 { nulls, .. } => nulls.is_some(),
            ArrayData::Dictionary { keys, .. } => keys.has_validity(),
        }
    }

    /// Whether this record is a variable-length string layout.
    pub open spec fn is_string(&self) -> bool {
        self matches ArrayData::Utf8 { .. } || self matches ArrayData::LargeUtf8 { .. }
    }

    /// The integer value at logical position `i` of a fixed-width
    /// integer array, widened to 64 bits.
    pub fn key_int(&self, i: usize) -> (r: i64)
        requires
            self.wf(),
            i < self.spec_len(),
            self.is_integer_keys() || self matches ArrayData::Int64 { .. },
        ensures
            r as int == self.int_at(i as int),
    {
        match self {
            ArrayData::Int8 { offset, values, .. } => values.get(*offset + i) as i64,
            ArrayData::Int32 { offset, values, .. } => values.get(*offset + i) as i64,
            ArrayData::Int64 { offset, values, .. } => values.get(*offset + i),
            _ => {
                proof {
                    assert(false);
                }
                0
            },
        }
    }

    /// A copy of the byte span of the valid string element at logical
    /// position `i`.
    pub fn bytes_at(&self, i: usize) -> (r: Vec<u8>)
        requires
            self.wf(),
            i < self.spec_len(),
            self.is_string(),
            self.valid_idx(i as int),
        ensures
            self@[i as int] == Val::Bytes(r@),
    {
        proof {
            self.lemma_view_len();
        }
        let mut out: Vec<u8> = Vec::new();
        match self {
            ArrayData::Utf8 { offset, offsets, values, .. } => {
                let lo = offsets.get(*offset + i) as usize;
                let hi = offsets.get(*offset + i + 1) as usize;
                let mut k: usize = lo;
                while k < hi
                    invariant
                        lo <= k <= hi <= values@.len(),
                        out@ == values@.subrange(lo as int, k as int),
                    decreases hi - k,
                {
                    out.push(values.get(k));
                    proof {
                        assert(out@ =~= values@.subrange(lo as int, k + 1));
                    }
                    k = k + 1;
                }
                proof {
                    assert(out@ =~= values@.subrange(lo as int, hi as int));
                }
            },
            ArrayData::LargeUtf8 { offset, offsets, values, .. } => {
                let lo = offsets.get(*offset + i) as usize;
                let hi = offsets.get(*offset + i + 1) as usize;
                let mut k: usize = lo;
                while k < hi
                    invariant
                        lo <= k <= hi <= values@.len(),
                        out@ == values@.subrange(lo as int, k as int),
                    decreases hi - k,
                {
                    out.push(values.get(k));
                    proof {
                        assert(out@ =~= values@.subrange(lo as int, k + 1));
                    }
                    k = k + 1;
                }
                proof {
                    assert(out@ =~= values@.subrange(lo as int, hi as int));
                }
            },
            _ => {
                proof {
                    assert(false);
                }
            },
        }
        out
    }

    /// The key array of a dictionary-encoded record.
    pub fn dict_keys(&self) -> (r: &ArrayData)
        requires
            self.is_dictionary(),
        ensures
            (self matches ArrayData::Dictionary { keys, .. } ==> *r == **keys),
    {
        match self {
            ArrayData::Dictionary { keys, .. } => keys,
            _ => {
                proof {
                    assert(false);
                }
                self
            },
        }
    }

    /// The shared values array (the dictionary) of a dictionary-encoded
    /// record.
    pub fn dict_values(&self) -> (r: &Arc<ArrayData>)
        requires
            self.is_dictionary(),
        ensures
            (self matches ArrayData::Dictionary { values, .. } ==> *r == *values),
    {
        match self {
            ArrayData::Dictionary { values, .. } => values,
            _ => {
                proof {
                    assert(false);
                }
                unreached()
            },
        }
    }

    /// The values buffer of a variable-length string record.
    pub fn value_buffer(&self) -> (r: &Buffer<u8>)
        requires
            self.is_string(),
        ensures
            (self matches ArrayData::Utf8 { values, .. } ==> *r == *values),
            (self matches ArrayData::LargeUtf8 { values, .. } ==> *r == *values),
    {
        match self {
            ArrayData::Utf8 { values, .. } => values,
            ArrayData::LargeUtf8 { values, .. } => values,
            _ => {
                proof {
                    assert(false);
                }
                unreached()
            },
        }
    }
}

/// Identity comparison of two shared storage records: true only when
/// both handles refer to the same record object (in which case they hold
/// the same record).
pub fn same_data(a: &Arc<ArrayData>, b: &Arc<ArrayData>) -> (r: bool)
    ensures
        r ==> *a == *b,
{
    arc_same(a, b)
}

} // verus!
