//! Read and write SANE-encoded arrays.
//!
//! SANE (Simple Array of Numbers Encoding) stores one n-dimensional array of
//! numbers per record: a fixed header (magic bytes, rank, axis lengths,
//! element type, length of the data) followed by the elements in row-major
//! order as little-endian bytes. Records follow each other in a stream with
//! nothing in between.
//!
//! Writing appends to a `Vec<u8>`; reading takes from a [`ByteStream`]. What
//! every function writes or reads is stated over the bytes: see the `spec_`
//! functions of [`write`] and [`read`], and [`laws`] for what holds of the two
//! together.
pub mod array;
pub mod data;
pub mod laws;
pub mod le;
pub mod payload;
pub mod read;
pub mod stream;
pub mod write;

pub use crate::array::{NdArray, ShapeErrorKind};
pub use crate::data::{
    data_type_code, parse_data_type, DataType, F32Bits, F64Bits, Header, Sane, SaneData,
};
pub use crate::read::{
    next_read, read_sane, read_sane_arrays, read_sane_arrays_dyn, read_sane_dyn, ParseError,
    ReadSane,
};
pub use crate::stream::ByteStream;
pub use crate::write::{
    write_sane, write_sane_arrays, write_sane_arrays_dyn, write_sane_dyn, WriteError, WriteSane,
};
