use vstd::prelude::*;

use crate::array::{ArrayData, Val};
use crate::bitmap::Bitmap;
use crate::buffer::{Buffer, BufferBuilder};
use crate::error::ConcatError;
use crate::kernel::{built_lstr, built_str};

verus! {

/// The byte span of string element `i`.
pub open spec fn str_elem_bytes(a: ArrayData, i: int) -> Seq<u8> {
    match a {
        ArrayData::Utf8 { offset, offsets, values, .. } => values@.subrange(
            offsets@[offset + i] as int,
            offsets@[offset + i + 1] as int,
        ),
        ArrayData::LargeUtf8 { offset, offsets, values, .. } => values@.subrange(
            offsets@[offset + i] as int,
            offsets@[offset + i + 1] as int,
        ),
        _ => Seq::empty(),
    }
}

/// Length of the values buffer of a string array.
pub open spec fn str_values_size(a: ArrayData) -> int {
    match a {
        ArrayData::Utf8 { values, .. } => values@.len() as int,
        ArrayData::LargeUtf8 { values, .. } => values@.len() as int,
        _ => 0,
    }
}

/// The elementwise result: element `i` is the bytes of `left[i]`
/// followed by the bytes of `right[i]` where the merged mask marks it
/// valid, and null where it does not.  When neither side carries a mask
/// there is no merged mask at all, and no element appends any bytes:
/// every output element is then the empty string.
pub open spec fn string_concat_view(left: ArrayData, right: ArrayData) -> Seq<Val> {
    if !left.has_mask() && !right.has_mask() {
        Seq::new(left.spec_len() as nat, |i: int| Val::Bytes(Seq::<u8>::empty()))
    } else {
        Seq::new(
            left.spec_len() as nat,
            |i: int|
                if left.valid_idx(i) && right.valid_idx(i) {
                    Val::Bytes(str_elem_bytes(left, i) + str_elem_bytes(right, i))
                } else {
                    Val::Null
                },
        )
    }
}

/// Elementwise concatenation of two string arrays of one offset width
/// and equal length: output element `i` is `left[i]` followed by
/// `right[i]`, with the validity masks merged by AND.
#[verifier::loop_isolation(false)]
#[verifier::rlimit(50)]
pub fn string_concat(left: &ArrayData, right: &ArrayData) -> (r: Result<ArrayData, ConcatError>)
    requires
        left.wf(),
        right.wf(),
        left.is_string(),
        left.dtype() == right.dtype(),
        left.spec_offset() == 0,
        right.spec_offset() == 0,
        str_values_size(*left) + str_values_size(*right) + 64 <= usize::MAX,
        ((*left) matches ArrayData::Utf8 { .. } ==> str_values_size(*left) + str_values_size(
            *right,
        ) <= i32::MAX),
        ((*left) matches ArrayData::LargeUtf8 { .. } ==> str_values_size(*left)
            + str_values_size(*right) <= i64::MAX),
    ensures
        match r {
            Result::Err(e) => e == ConcatError::LengthMismatch,
            Result::Ok(out) => out.wf() && out.dtype() == left.dtype() && out.spec_len()
                == left.spec_len() && out.spec_offset() == 0 && out@ == string_concat_view(
                *left,
                *right,
            ) && out.has_mask() == (left.has_mask() || right.has_mask()),
        },
        (r is Err) <==> left.spec_len() != right.spec_len(),
{
    let n = left.len();
    if n != right.len() {
        return Result::Err(ConcatError::LengthMismatch);
    }
    let ghost target = string_concat_view(*left, *right);
    let has = left.has_validity() || right.has_validity();
    match (left, right) {
        (
            ArrayData::Utf8 { offsets: loff, values: lval, .. },
            ArrayData::Utf8 { offsets: roff, values: rval, .. },
        ) => {
            let mut vb = BufferBuilder::<u8>::new(lval.len() + rval.len());
            let mut offs: Vec<i32> = Vec::new();
            offs.push(0);
            let mut bits: Vec<bool> = Vec::new();
            let mut i: usize = 0;
            while i < n
                invariant
                    i <= n,
                    vb.wf(),
                    offs@.len() == i + 1,
                    bits@.len() == i,
                    forall|t: int| 0 <= t < offs@.len() ==> 0 <= #[trigger] offs@[t] <= vb@.len(),
                    forall|t1: int, t2: int|
                        0 <= t1 <= t2 < offs@.len() ==> #[trigger] offs@[t1] <= #[trigger] offs@[t2],
                    offs@[offs@.len() - 1] == vb@.len(),
                    vb@.len() <= (loff@[i as int] - loff@[0]) + (roff@[i as int] - roff@[0]),
                    built_str(offs@, vb@, bits@) == target.subrange(0, i as int),
                    forall|t: int|
                        0 <= t < i ==> bits@[t] == (left.valid_idx(t) && right.valid_idx(t)),
                decreases n - i,
            {
                let lv = left.is_valid(i);
                let rv = right.is_valid(i);
                let both = lv && rv;
                let llo = loff.get(i) as usize;
                let lhi = loff.get(i + 1) as usize;
                let rlo = roff.get(i) as usize;
                let rhi = roff.get(i + 1) as usize;
                let ghost obytes = vb@;
                let ghost ooffs = offs@;
                let ghost obits = bits@;
                if has && both {
                    vb.append_from(lval, llo, lhi);
                    vb.append_from(rval, rlo, rhi);
                    proof {
                        assert(vb@.subrange(obytes.len() as int, vb@.len() as int)
                            =~= lval@.subrange(llo as int, lhi as int) + rval@.subrange(
                            rlo as int,
                            rhi as int,
                        ));
                    }
                }
                let newoff = vb.len();
                offs.push(newoff as i32);
                bits.push(both);
                proof {
                    let ghost lhs = built_str(offs@, vb@, bits@);
                    assert(target[i as int] == (if !left.has_mask() && !right.has_mask() {
                        Val::Bytes(Seq::<u8>::empty())
                    } else {
                        if left.valid_idx(i as int) && right.valid_idx(i as int) {
                            Val::Bytes(
                                str_elem_bytes(*left, i as int) + str_elem_bytes(
                                    *right,
                                    i as int,
                                ),
                            )
                        } else {
                            Val::Null
                        }
                    }));
                    assert forall|pos: int| 0 <= pos < lhs.len() implies lhs[pos] == target.subrange(
                        0,
                        i + 1,
                    )[pos] by {
                        if pos < obits.len() {
                            assert(built_str(ooffs, obytes, obits)[pos] == target.subrange(
                                0,
                                i as int,
                            )[pos]);
                            assert(vb@.subrange(ooffs[pos] as int, ooffs[pos + 1] as int)
                                =~= obytes.subrange(ooffs[pos] as int, ooffs[pos + 1] as int));
                        } else {
                            if !(has && both) {
                                assert(offs@[pos] == offs@[pos + 1]);
                                assert(vb@.subrange(offs@[pos] as int, offs@[pos + 1] as int)
                                    =~= Seq::<u8>::empty());
                            }
                        }
                    }
                    assert(lhs =~= target.subrange(0, i + 1));
                }
                i = i + 1;
            }
            let nulls = if has {
                Option::Some(Bitmap::from_vec(bits))
            } else {
                Option::None
            };
            let out = ArrayData::Utf8 {
                len: n,
                offset: 0,
                offsets: Buffer::from_vec(offs),
                values: vb.finish(),
                nulls,
            };
            proof {
                out.lemma_view_len();
                assert(target.subrange(0, n as int) =~= target);
                assert(out@ =~= target);
            }
            Result::Ok(out)
        },
        (
            ArrayData::LargeUtf8 { offsets: loff, values: lval, .. },
            ArrayData::LargeUtf8 { offsets: roff, values: rval, .. },
        ) => {
            let mut vb = BufferBuilder::<u8>::new(lval.len() + rval.len());
            let mut offs: Vec<i64> = Vec::new();
            offs.push(0);
            let mut bits: Vec<bool> = Vec::new();
            let mut i: usize = 0;
            while i < n
                invariant
                    i <= n,
                    vb.wf(),
                    offs@.len() == i + 1,
                    bits@.len() == i,
                    forall|t: int| 0 <= t < offs@.len() ==> 0 <= #[trigger] offs@[t] <= vb@.len(),
                    forall|t1: int, t2: int|
                        0 <= t1 <= t2 < offs@.len() ==> #[trigger] offs@[t1] <= #[trigger] offs@[t2],
                    offs@[offs@.len() - 1] == vb@.len(),
                    vb@.len() <= (loff@[i as int] - loff@[0]) + (roff@[i as int] - roff@[0]),
                    built_lstr(offs@, vb@, bits@) == target.subrange(0, i as int),
                    forall|t: int|
                        0 <= t < i ==> bits@[t] == (left.valid_idx(t) && right.valid_idx(t)),
                decreases n - i,
            {
                let lv = left.is_valid(i);
                let rv = right.is_valid(i);
                let both = lv && rv;
                let llo = loff.get(i) as usize;
                let lhi = loff.get(i + 1) as usize;
                let rlo = roff.get(i) as usize;
                let rhi = roff.get(i + 1) as usize;
                let ghost obytes = vb@;
                let ghost ooffs = offs@;
                let ghost obits = bits@;
                if has && both {
                    vb.append_from(lval, llo, lhi);
                    vb.append_from(rval, rlo, rhi);
                    proof {
                        assert(vb@.subrange(obytes.len() as int, vb@.len() as int)
                            =~= lval@.subrange(llo as int, lhi as int) + rval@.subrange(
                            rlo as int,
                            rhi as int,
                        ));
                    }
                }
                let newoff = vb.len();
                offs.push(newoff as i64);
                bits.push(both);
                proof {
                    let ghost lhs = built_lstr(offs@, vb@, bits@);
                    assert(target[i as int] == (if !left.has_mask() && !right.has_mask() {
                        Val::Bytes(Seq::<u8>::empty())
                    } else {
                        if left.valid_idx(i as int) && right.valid_idx(i as int) {
                            Val::Bytes(
                                str_elem_bytes(*left, i as int) + str_elem_bytes(
                                    *right,
                                    i as int,
                                ),
                            )
                        } else {
                            Val::Null
                        }
                    }));
                    assert forall|pos: int| 0 <= pos < lhs.len() implies lhs[pos] == target.subrange(
                        0,
                        i + 1,
                    )[pos] by {
                        if pos < obits.len() {
                            assert(built_lstr(ooffs, obytes, obits)[pos] == target.subrange(
                                0,
                                i as int,
                            )[pos]);
                            assert(vb@.subrange(ooffs[pos] as int, ooffs[pos + 1] as int)
                                =~= obytes.subrange(ooffs[pos] as int, ooffs[pos + 1] as int));
                        } else {
                            if !(has && both) {
                                assert(offs@[pos] == offs@[pos + 1]);
                                assert(vb@.subrange(offs@[pos] as int, offs@[pos + 1] as int)
                                    =~= Seq::<u8>::empty());
                            }
                        }
                    }
                    assert(lhs =~= target.subrange(0, i + 1));
                }
                i = i + 1;
            }
            let nulls = if has {
                Option::Some(Bitmap::from_vec(bits))
            } else {
                Option::None
            };
            let out = ArrayData::LargeUtf8 {
                len: n,
                offset: 0,
                offsets: Buffer::from_vec(offs),
                values: vb.finish(),
                nulls,
            };
            proof {
                out.lemma_view_len();
                assert(target.subrange(0, n as int) =~= target);
                assert(out@ =~= target);
            }
            Result::Ok(out)
        },
        _ => {
            proof {
                assert(false);
            }
            Result::Err(ConcatError::LengthMismatch)
        },
    }
}

} // verus!
