use vstd::prelude::*;

verus! {

/// The logical data type of an array: a closed set of physical layouts.
/// Fixed-width integers and booleans, variable-length strings with a
/// 32-bit (`Utf8`) or 64-bit (`LargeUtf8`) offset width, and
/// dictionary-encoded arrays of integer keys into a shared values array.
#[derive(Debug)]
pub enum DataType {
    Int8,
    Int32,
    Int64,
    Boolean,
    Utf8,
    LargeUtf8,
    /// Key type and value type of a dictionary-encoded array.
    Dictionary(Box<DataType>, Box<DataType>),
}

impl DataType {
    /// Whether this layout is variable-length string-like, so that
    /// concatenation must precompute the exact output value-buffer size.
    pub open spec fn is_string_like(&self) -> bool {
        self matches DataType::Utf8 || self matches DataType::LargeUtf8
    }
}

/// Structural equality of two logical data types.
pub fn same_type(a: &DataType, b: &DataType) -> (r: bool)
    ensures
        r == (a == b),
    decreases a,
{
    match (a, b) {
        (DataType::Int8, DataType::Int8) => true,
        (DataType::Int32, DataType::Int32) => true,
        (DataType::Int64, DataType::Int64) => true,
        (DataType::Boolean, DataType::Boolean) => true,
        (DataType::Utf8, DataType::Utf8) => true,
        (DataType::LargeUtf8, DataType::LargeUtf8) => true,
        (DataType::Dictionary(ka, va), DataType::Dictionary(kb, vb)) => same_type(ka, kb)
            && same_type(va, vb),
        _ => false,
    }
}

} // verus!
