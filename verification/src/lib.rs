//! Concatenation kernel for a columnar in-memory array format.
//!
//! Given several arrays of one logical type, `kernel::concat` produces a
//! single contiguous array that preserves element order and null
//! semantics while sharing unchanged storage where it can, precomputing
//! exact value-buffer sizes for variable-length string layouts.
//! `string_concat` is the independent elementwise operation over two
//! variable-length string arrays of equal length, merging their
//! validity masks.

mod array;
mod bitmap;
mod buffer;
mod compare;
mod construct;
mod datatype;
mod elementwise;
mod error;
pub mod kernel;
pub mod laws;

pub use array::same_data;
pub use array::ArrayData;
pub use array::Val;
pub use bitmap::Bitmap;
pub use buffer::Buffer;
pub use buffer::BufferBuilder;
pub use construct::boolean_array;
pub use construct::dictionary_array;
pub use construct::int32_array;
pub use construct::int64_array;
pub use construct::int8_array;
pub use construct::large_utf8_array;
pub use construct::utf8_array;
pub use datatype::same_type;
pub use datatype::DataType;
pub use elementwise::string_concat;
pub use error::ConcatError;
pub use kernel::compute_str_values_length;
