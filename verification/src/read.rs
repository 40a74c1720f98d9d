//! Reading SANE-encoded arrays from a stream of bytes.
use crate::array::{shape_error, ArrayModel, NdArray, ShapeErrorKind};
use crate::data::{
    magic, parse_data_type, spec_parse_data_type, DataType, F32Bits, F64Bits, Header, HeaderModel,
    Sane, SaneData, SaneModel,
};
use crate::le::{le_decode, le_value, lemma_le_value_bound, lemma_pow256_values};
use crate::payload::{elements_from_le, spec_chunk, spec_elems};
use crate::stream::{spec_read_exact, ByteStream};
use vstd::prelude::*;

verus! {

/// To be able to read SANE-encoded data we need to be able to convert the
/// `Vec<u8>` of little-endian data to the corresponding vector of values.
pub trait ReadSane: SaneData {
    /// The elements that the data bytes hold, in their order. Bytes at the
    /// end that do not make up an element are dropped.
    fn from_le_bytes(bytes: Vec<u8>) -> (r: Vec<Self>)
        ensures
            r@ == spec_elems::<Self>(bytes@),
    ;
}

impl ReadSane for F32Bits {
    fn from_le_bytes(bytes: Vec<u8>) -> Vec<F32Bits> {
        elements_from_le::<F32Bits>(bytes.as_slice())
    }
}

impl ReadSane for i32 {
    fn from_le_bytes(bytes: Vec<u8>) -> Vec<i32> {
        elements_from_le::<i32>(bytes.as_slice())
    }
}

impl ReadSane for u32 {
    fn from_le_bytes(bytes: Vec<u8>) -> Vec<u32> {
        elements_from_le::<u32>(bytes.as_slice())
    }
}

impl ReadSane for F64Bits {
    fn from_le_bytes(bytes: Vec<u8>) -> Vec<F64Bits> {
        elements_from_le::<F64Bits>(bytes.as_slice())
    }
}

impl ReadSane for i64 {
    fn from_le_bytes(bytes: Vec<u8>) -> Vec<i64> {
        elements_from_le::<i64>(bytes.as_slice())
    }
}

impl ReadSane for u64 {
    fn from_le_bytes(bytes: Vec<u8>) -> Vec<u64> {
        elements_from_le::<u64>(bytes.as_slice())
    }
}

impl ReadSane for i8 {
    fn from_le_bytes(bytes: Vec<u8>) -> Vec<i8> {
        elements_from_le::<i8>(bytes.as_slice())
    }
}

impl ReadSane for u8 {
    fn from_le_bytes(bytes: Vec<u8>) -> Vec<u8> {
        proof {
            let elems = spec_elems::<u8>(bytes@);
            assert forall|i: int| 0 <= i < bytes@.len() implies elems[i] == bytes@[i] by {
                let chunk = spec_chunk(bytes@, 1, i);
                assert(chunk[0] == bytes@[i]);
                assert(le_value(chunk.skip(1)) == 0);
            }
            assert(bytes@ =~= elems);
        }
        bytes
    }
}

/// Why a stream could not be read as a SANE array.
#[derive(Debug, Clone, Copy, PartialEq, Eq, Structural)]
pub enum ParseError {
    /// The stream ended before the first byte of a record: there is no
    /// further array in it.
    EOF,
    /// The record does not begin with the four bytes `SANE`.
    NotSANE,
    /// The header names an element type by a code that stands for none.
    InvalidDataType(u8),
    /// The stream ended within a header.
    TruncatedHeader,
    /// The stream ended before the number of data bytes that the header
    /// announces.
    TruncatedPayload,
    /// A rank, an axis length or a data length of the header is beyond
    /// `usize::MAX`.
    CannotConvertToUSize,
    /// The shape of the header does not fit the number of elements that
    /// were read, or the rank that the caller asked for.
    ShapeError(ShapeErrorKind),
    /// The header names another element type than the caller asked for.
    WrongDataType(DataType),
}

/// The outcome of reading from a stream: what was read or why it failed, and
/// the bytes that are left unread.
pub struct Parsed<T> {
    pub result: Result<T, ParseError>,
    pub rest: Seq<u8>,
}

/// A failed read that leaves `rest` unread.
pub open spec fn failed<T>(error: ParseError, rest: Seq<u8>) -> Parsed<T> {
    Parsed { result: Err(error), rest }
}

/// The size that a little-endian field holds, where `usize` can hold it.
pub open spec fn spec_parse_size(bytes: Seq<u8>) -> Result<usize, ParseError> {
    if le_value(bytes) <= usize::MAX {
        Ok(le_value(bytes) as usize)
    } else {
        Err(ParseError::CannotConvertToUSize)
    }
}

/// The `i`-th axis length as the header stores it, eight bytes each.
pub open spec fn spec_wire_dim(dims: Seq<u8>, i: int) -> nat {
    le_value(dims.subrange(8 * i, 8 * i + 8))
}

/// Whether `usize` can hold every axis length of the header.
pub open spec fn spec_dims_fit(dims: Seq<u8>) -> bool {
    forall|i: int| 0 <= i < dims.len() / 8 ==> spec_wire_dim(dims, i) <= usize::MAX
}

/// The shape that the axis lengths of a header give: the header stores them
/// last axis first.
pub open spec fn spec_shape(dims: Seq<u8>) -> Seq<usize> {
    let rank = dims.len() as int / 8;
    Seq::new(rank as nat, |i: int| spec_wire_dim(dims, rank - 1 - i) as usize)
}

/// Reading a header from `input`: the magic bytes, then the rest.
pub open spec fn spec_read_header(input: Seq<u8>) -> Parsed<HeaderModel> {
    if input.len() == 0 {
        failed(ParseError::EOF, input)
    } else if input.len() < 4 {
        failed(ParseError::TruncatedHeader, Seq::empty())
    } else if input.take(4) != magic() {
        failed(ParseError::NotSANE, input.skip(4))
    } else {
        spec_read_rank(input.skip(4))
    }
}

/// Reading a header after its magic bytes: the rank in four bytes, then the
/// rest.
pub open spec fn spec_read_rank(input: Seq<u8>) -> Parsed<HeaderModel> {
    if input.len() < 4 {
        failed(ParseError::TruncatedHeader, Seq::empty())
    } else {
        match spec_parse_size(input.take(4)) {
            Err(e) => failed(e, input.skip(4)),
            Ok(rank) => spec_read_dims(input.skip(4), rank),
        }
    }
}

/// Reading a header after its rank: eight bytes for each axis, then the
/// rest.
pub open spec fn spec_read_dims(input: Seq<u8>, rank: usize) -> Parsed<HeaderModel> {
    if input.len() < 8 * rank {
        failed(ParseError::TruncatedHeader, Seq::empty())
    } else if !spec_dims_fit(input.take(8 * rank)) {
        failed(ParseError::CannotConvertToUSize, input.skip(8 * rank))
    } else {
        spec_read_type_and_length(input.skip(8 * rank), spec_shape(input.take(8 * rank)))
    }
}

/// Reading a header after its axis lengths: one byte for the element type
/// and eight for the length of the data.
pub open spec fn spec_read_type_and_length(input: Seq<u8>, shape: Seq<usize>) -> Parsed<
    HeaderModel,
> {
    if input.len() < 1 {
        failed(ParseError::TruncatedHeader, Seq::empty())
    } else {
        match spec_parse_data_type(input[0]) {
            Err(code) => failed(ParseError::InvalidDataType(code), input.skip(1)),
            Ok(data_type) => if input.len() < 9 {
                failed(ParseError::TruncatedHeader, Seq::empty())
            } else {
                match spec_parse_size(input.subrange(1, 9)) {
                    Err(e) => failed(e, input.skip(9)),
                    Ok(data_length) => Parsed {
                        result: Ok(HeaderModel { shape, data_type, data_length }),
                        rest: input.skip(9),
                    },
                }
            },
        }
    }
}

/// What a header that was read, or the failure to read one, stands for.
pub open spec fn header_result_model(r: Result<Header, ParseError>) -> Result<
    HeaderModel,
    ParseError,
> {
    match r {
        Ok(header) => Ok(header@),
        Err(e) => Err(e),
    }
}

/// The size held by a field of up to eight little-endian bytes.
fn parse_size(bytes: &[u8]) -> (r: Result<usize, ParseError>)
    requires
        bytes@.len() <= 8,
    ensures
        r == spec_parse_size(bytes@),
{
    let value: u64 = le_decode(bytes, 0, bytes.len());
    assert(bytes@.subrange(0, bytes@.len() as int) =~= bytes@);
    match usize::try_from(value) {
        Ok(size) => Ok(size),
        Err(_) => Err(ParseError::CannotConvertToUSize),
    }
}

/// Parses a little-endian `u32` as a size.
pub fn parse_u32_size(bytes: [u8; 4]) -> (r: Result<usize, ParseError>)
    ensures
        r == spec_parse_size(bytes@),
        r is Ok,
{
    proof {
        lemma_le_value_bound(bytes@);
        lemma_pow256_values();
    }
    parse_size(bytes.as_slice())
}

/// Parses a little-endian `u64` as a size.
pub fn parse_u64_size(bytes: [u8; 8]) -> (r: Result<usize, ParseError>)
    ensures
        r == spec_parse_size(bytes@),
{
    parse_size(bytes.as_slice())
}

/// Reads the header of a SANE array: the magic bytes, the rank, the axis
/// lengths, the element type and the length of the data.
///
/// At the end of the stream, before the first byte of a header, the result
/// is `EOF`. A stream that ends within the header gives `TruncatedHeader` and
/// is left at its end; any other failure leaves it behind the field that was
/// refused.
pub fn read_header(file: &mut ByteStream) -> (r: Result<Header, ParseError>)
    ensures
        header_result_model(r) == spec_read_header(old(file)@).result,
        final(file)@ == spec_read_header(old(file)@).rest,
{
    if file.remaining() == 0 {
        return Err(ParseError::EOF);
    }
    let magic_bytes = match file.read_exact(4) {
        Some(bytes) => bytes,
        None => {
            return Err(ParseError::TruncatedHeader);
        },
    };
    let is_sane = magic_bytes[0] == 0x53 && magic_bytes[1] == 0x41 && magic_bytes[2] == 0x4E
        && magic_bytes[3] == 0x45;
    proof {
        assert(is_sane <==> magic_bytes@ =~= magic());
    }
    if !is_sane {
        return Err(ParseError::NotSANE);
    }
    let ghost after_magic = file@;
    let shape_length_bytes = match file.read_exact(4) {
        Some(bytes) => bytes,
        None => {
            return Err(ParseError::TruncatedHeader);
        },
    };
    let shape_length_field = [
        shape_length_bytes[0],
        shape_length_bytes[1],
        shape_length_bytes[2],
        shape_length_bytes[3],
    ];
    proof {
        assert(shape_length_field@ =~= after_magic.take(4));
    }
    let shape_length = match parse_u32_size(shape_length_field) {
        Ok(size) => size,
        Err(e) => {
            return Err(e);
        },
    };
    let ghost after_rank = file@;
    if shape_length > usize::MAX / 8 {
        file.skip_to_end();
        return Err(ParseError::TruncatedHeader);
    }
    let shape_bytes = match file.read_exact(shape_length * 8) {
        Some(bytes) => bytes,
        None => {
            return Err(ParseError::TruncatedHeader);
        },
    };
    let ghost dims = after_rank.take(8 * shape_length);
    let mut shape: Vec<usize> = Vec::new();
    let mut dim: usize = 0;
    while dim < shape_length
        invariant
            dim <= shape_length <= usize::MAX / 8,
            shape_bytes@ == dims,
            dims.len() == 8 * shape_length,
            shape@.len() == dim,
            forall|i: int|
                shape_length - dim <= i < shape_length ==> spec_wire_dim(dims, i) <= usize::MAX,
            forall|j: int|
                0 <= j < dim ==> shape@[j] == spec_wire_dim(dims, shape_length - 1 - j) as usize,
            after_rank.len() >= 8 * shape_length,
            file@ == after_rank.skip(8 * shape_length),
            dims == after_rank.take(8 * shape_length),
            spec_read_header(old(file)@) == spec_read_dims(after_rank, shape_length),
        decreases shape_length - dim,
    {
        let at = (shape_length - 1 - dim) * 8;
        let dim_bytes = [
            shape_bytes[at],
            shape_bytes[at + 1],
            shape_bytes[at + 2],
            shape_bytes[at + 3],
            shape_bytes[at + 4],
            shape_bytes[at + 5],
            shape_bytes[at + 6],
            shape_bytes[at + 7],
        ];
        proof {
            assert(dim_bytes@ =~= dims.subrange(
                8 * (shape_length - 1 - dim),
                8 * (shape_length - 1 - dim) + 8,
            ));
        }
        let dimension = match parse_u64_size(dim_bytes) {
            Ok(size) => size,
            Err(e) => {
                proof {
                    assert(spec_wire_dim(dims, shape_length - 1 - dim) > usize::MAX);
                    assert(!spec_dims_fit(dims));
                }
                return Err(e);
            },
        };
        shape.push(dimension);
        dim = dim + 1;
    }
    proof {
        assert(spec_dims_fit(dims));
        assert(shape@ =~= spec_shape(dims));
    }
    let ghost after_dims = file@;
    let data_type_bytes = match file.read_exact(1) {
        Some(bytes) => bytes,
        None => {
            return Err(ParseError::TruncatedHeader);
        },
    };
    let data_type = match parse_data_type(data_type_bytes[0]) {
        Ok(data_type) => data_type,
        Err(code) => {
            return Err(ParseError::InvalidDataType(code));
        },
    };
    let data_length_bytes = match file.read_exact(8) {
        Some(bytes) => bytes,
        None => {
            return Err(ParseError::TruncatedHeader);
        },
    };
    let data_length_field = [
        data_length_bytes[0],
        data_length_bytes[1],
        data_length_bytes[2],
        data_length_bytes[3],
        data_length_bytes[4],
        data_length_bytes[5],
        data_length_bytes[6],
        data_length_bytes[7],
    ];
    proof {
        assert(data_length_field@ =~= after_dims.subrange(1, 9));
        assert(after_dims.skip(1).skip(8) =~= after_dims.skip(9));
    }
    let data_length = match parse_u64_size(data_length_field) {
        Ok(size) => size,
        Err(e) => {
            return Err(e);
        },
    };
    Ok(Header { shape, data_type, data_length })
}

/// What an array that was read, or the failure to read one, stands for.
pub open spec fn array_result_model<A>(r: Result<NdArray<A>, ParseError>) -> Result<
    ArrayModel<A>,
    ParseError,
> {
    match r {
        Ok(array) => Ok(array@),
        Err(e) => Err(e),
    }
}

/// The array of the given shape that data bytes hold, where the number of
/// their elements fits the shape.
pub open spec fn spec_read_array<T: SaneData>(shape: Seq<usize>, data: Seq<u8>) -> Result<
    ArrayModel<T>,
    ParseError,
> {
    let elems = spec_elems::<T>(data);
    match shape_error(shape, elems.len()) {
        Some(kind) => Err(ParseError::ShapeError(kind)),
        None => Ok(ArrayModel { shape, elems }),
    }
}

/// The array of the given shape that data bytes hold, where the shape also
/// has the rank that is asked for.
pub open spec fn spec_read_array_with_shape<T: SaneData>(
    shape: Seq<usize>,
    data: Seq<u8>,
    rank: Option<usize>,
) -> Result<ArrayModel<T>, ParseError> {
    match spec_read_array::<T>(shape, data) {
        Err(e) => Err(e),
        Ok(array) => if rank is Some && rank != Some(shape.len() as usize) {
            Err(ParseError::ShapeError(ShapeErrorKind::IncompatibleShape))
        } else {
            Ok(array)
        },
    }
}

/// Makes the array of the given shape from its little-endian data bytes.
pub fn read_array<T: ReadSane>(shape: Vec<usize>, byte_data: Vec<u8>) -> (r: Result<
    NdArray<T>,
    ParseError,
>)
    ensures
        array_result_model(r) == spec_read_array::<T>(shape@, byte_data@),
{
    let values = T::from_le_bytes(byte_data);
    match NdArray::from_shape_vec(shape, values) {
        Ok(array) => Ok(array),
        Err(kind) => Err(ParseError::ShapeError(kind)),
    }
}

/// Makes the array of the given shape from its little-endian data bytes,
/// and holds it to the rank that the caller expects, if any.
pub fn read_array_with_shape<T: ReadSane>(
    shape: Vec<usize>,
    byte_data: Vec<u8>,
    rank: Option<usize>,
) -> (r: Result<NdArray<T>, ParseError>)
    ensures
        array_result_model(r) == spec_read_array_with_shape::<T>(shape@, byte_data@, rank),
{
    let ndim = shape.len();
    let array = match read_array::<T>(shape, byte_data) {
        Ok(array) => array,
        Err(e) => {
            return Err(e);
        },
    };
    match rank {
        Some(expected) => {
            if expected != ndim {
                return Err(ParseError::ShapeError(ShapeErrorKind::IncompatibleShape));
            }
        },
        None => {},
    }
    Ok(array)
}

/// Reading the data that a header announces from what follows it.
pub open spec fn spec_read_data(input: Seq<u8>, data_length: usize) -> Parsed<Seq<u8>> {
    match spec_read_exact(input, data_length as nat) {
        None => failed(ParseError::TruncatedPayload, Seq::empty()),
        Some(data) => Parsed { result: Ok(data), rest: input.skip(data_length as int) },
    }
}

/// Reading one array of a known element type, and of a known rank if one is
/// given: the header, a check of the element type, the data, the array.
#[verifier::opaque]
pub open spec fn spec_read_sane<A: SaneData>(input: Seq<u8>, rank: Option<usize>) -> Parsed<
    ArrayModel<A>,
> {
    let head = spec_read_header(input);
    match head.result {
        Err(e) => failed(e, head.rest),
        Ok(header) => if header.data_type != A::spec_data_type() {
            failed(ParseError::WrongDataType(header.data_type), head.rest)
        } else {
            let body = spec_read_data(head.rest, header.data_length);
            match body.result {
                Err(e) => failed(e, body.rest),
                Ok(data) => Parsed {
                    result: spec_read_array_with_shape::<A>(header.shape, data, rank),
                    rest: body.rest,
                },
            }
        },
    }
}

/// Reads the data bytes that a header announces.
fn read_data(file: &mut ByteStream, data_length: usize) -> (r: Result<Vec<u8>, ParseError>)
    ensures
        final(file)@ == spec_read_data(old(file)@, data_length).rest,
        match r {
            Ok(data) => spec_read_data(old(file)@, data_length).result == Ok::<
                Seq<u8>,
                ParseError,
            >(data@),
            Err(e) => spec_read_data(old(file)@, data_length).result == Err::<
                Seq<u8>,
                ParseError,
            >(e),
        },
{
    match file.read_exact(data_length) {
        Some(data) => Ok(data),
        None => Err(ParseError::TruncatedPayload),
    }
}

/// Parse a SANE-encoded file into an array with known type and, where
/// `rank` is given, known rank.
pub fn read_sane<A: ReadSane>(file: &mut ByteStream, rank: Option<usize>) -> (r: Result<
    NdArray<A>,
    ParseError,
>)
    ensures
        array_result_model(r) == spec_read_sane::<A>(old(file)@, rank).result,
        final(file)@ == spec_read_sane::<A>(old(file)@, rank).rest,
{
    proof {
        reveal(spec_read_sane);
    }
    let header = match read_header(file) {
        Ok(header) => header,
        Err(e) => {
            return Err(e);
        },
    };
    if header.data_type != A::sane_data_type() {
        return Err(ParseError::WrongDataType(header.data_type));
    }
    let sane_data = match read_data(file, header.data_length) {
        Ok(data) => data,
        Err(e) => {
            return Err(e);
        },
    };
    read_array_with_shape(header.shape, sane_data, rank)
}

/// `n`, or `usize::MAX` where `n` is beyond it.
pub open spec fn spec_clip(n: int) -> usize {
    if n > usize::MAX {
        usize::MAX
    } else {
        n as usize
    }
}

/// How a record is taken off a source that hands out bytes on demand: the
/// number of bytes to read next, given the bytes of the record that were read
/// so far; 0 once the record is complete; a failure as soon as the bytes
/// show it.
///
/// The magic bytes are asked for first, then the rank, then the rest of the
/// header, then the data. A header that is longer than `usize::MAX` bytes is
/// asked for in parts.
pub open spec fn spec_next_read(record: Seq<u8>) -> Result<usize, ParseError> {
    if record.len() < 4 {
        Ok((4 - record.len()) as usize)
    } else if record.take(4) != magic() {
        Err(ParseError::NotSANE)
    } else if record.len() < 8 {
        Ok((8 - record.len()) as usize)
    } else {
        let header_length = 17 + 8 * le_value(record.subrange(4, 8));
        if record.len() < header_length {
            Ok(spec_clip(header_length - record.len()))
        } else {
            let head = spec_read_header(record);
            match head.result {
                Err(e) => Err(e),
                Ok(header) => if header.data_length > head.rest.len() {
                    Ok((header.data_length - head.rest.len()) as usize)
                } else {
                    Ok(0)
                },
            }
        }
    }
}

/// Says how many bytes to read next from a source that hands out bytes on
/// demand, given the bytes of the record that were read so far: 0 once the
/// header and the data that it announces are all there.
///
/// A caller reads that many bytes, adds them to the record and asks again.
/// Where the source ends before it has handed them out, reading the record
/// as it stands gives the failure to report.
pub fn next_read(record: &[u8]) -> (r: Result<usize, ParseError>)
    ensures
        r == spec_next_read(record@),
{
    let len = record.len();
    if len < 4 {
        return Ok(4 - len);
    }
    let is_sane = record[0] == 0x53 && record[1] == 0x41 && record[2] == 0x4E && record[3]
        == 0x45;
    proof {
        assert(is_sane <==> record@.take(4) =~= magic());
    }
    if !is_sane {
        return Err(ParseError::NotSANE);
    }
    if len < 8 {
        return Ok(8 - len);
    }
    let rank = le_decode(record, 4, 4);
    proof {
        lemma_le_value_bound(record@.subrange(4, 8));
        lemma_pow256_values();
    }
    let header_length: u64 = 17 + 8 * rank;
    if (len as u64) < header_length {
        return Ok(
            match usize::try_from(header_length - len as u64) {
                Ok(missing) => missing,
                Err(_) => usize::MAX,
            },
        );
    }
    let mut stream = ByteStream::new(record);
    let header = match read_header(&mut stream) {
        Ok(header) => header,
        Err(e) => {
            return Err(e);
        },
    };
    let have = stream.remaining();
    if header.data_length > have {
        Ok(header.data_length - have)
    } else {
        Ok(0)
    }
}

/// What a dynamic array that was read, or the failure to read one, stands
/// for.
pub open spec fn sane_result_model(r: Result<Sane, ParseError>) -> Result<SaneModel, ParseError> {
    match r {
        Ok(sane) => Ok(sane@),
        Err(e) => Err(e),
    }
}

/// The array of the given element type and shape that data bytes hold.
pub open spec fn spec_read_array_dyn(data_type: DataType, shape: Seq<usize>, data: Seq<u8>) -> Result<
    SaneModel,
    ParseError,
> {
    match data_type {
        DataType::F32 => match spec_read_array::<F32Bits>(shape, data) {
            Ok(array) => Ok(SaneModel::ArrayF32(array)),
            Err(e) => Err(e),
        },
        DataType::I32 => match spec_read_array::<i32>(shape, data) {
            Ok(array) => Ok(SaneModel::ArrayI32(array)),
            Err(e) => Err(e),
        },
        DataType::U32 => match spec_read_array::<u32>(shape, data) {
            Ok(array) => Ok(SaneModel::ArrayU32(array)),
            Err(e) => Err(e),
        },
        DataType::F64 => match spec_read_array::<F64Bits>(shape, data) {
            Ok(array) => Ok(SaneModel::ArrayF64(array)),
            Err(e) => Err(e),
        },
        DataType::I64 => match spec_read_array::<i64>(shape, data) {
            Ok(array) => Ok(SaneModel::ArrayI64(array)),
            Err(e) => Err(e),
        },
        DataType::U64 => match spec_read_array::<u64>(shape, data) {
            Ok(array) => Ok(SaneModel::ArrayU64(array)),
            Err(e) => Err(e),
        },
        DataType::I8 => match spec_read_array::<i8>(shape, data) {
            Ok(array) => Ok(SaneModel::ArrayI8(array)),
            Err(e) => Err(e),
        },
        DataType::U8 => match spec_read_array::<u8>(shape, data) {
            Ok(array) => Ok(SaneModel::ArrayU8(array)),
            Err(e) => Err(e),
        },
    }
}

/// Reading one array whose element type and rank the header decides: the
/// header, the data, the array.
#[verifier::opaque]
pub open spec fn spec_read_sane_dyn(input: Seq<u8>) -> Parsed<SaneModel> {
    let head = spec_read_header(input);
    match head.result {
        Err(e) => failed(e, head.rest),
        Ok(header) => {
            let body = spec_read_data(head.rest, header.data_length);
            match body.result {
                Err(e) => failed(e, body.rest),
                Ok(data) => Parsed {
                    result: spec_read_array_dyn(header.data_type, header.shape, data),
                    rest: body.rest,
                },
            }
        },
    }
}

/// Parse a SANE-encoded file into an array with dynamic type and rank.
pub fn read_sane_dyn(file: &mut ByteStream) -> (r: Result<Sane, ParseError>)
    ensures
        sane_result_model(r) == spec_read_sane_dyn(old(file)@).result,
        final(file)@ == spec_read_sane_dyn(old(file)@).rest,
{
    proof {
        reveal(spec_read_sane_dyn);
    }
    let header = match read_header(file) {
        Ok(header) => header,
        Err(e) => {
            return Err(e);
        },
    };
    let sane_data = match read_data(file, header.data_length) {
        Ok(data) => data,
        Err(e) => {
            return Err(e);
        },
    };
    let dims = header.shape;
    match header.data_type {
        DataType::F32 => match read_array(dims, sane_data) {
            Ok(array) => Ok(Sane::ArrayF32(array)),
            Err(e) => Err(e),
        },
        DataType::I32 => match read_array(dims, sane_data) {
            Ok(array) => Ok(Sane::ArrayI32(array)),
            Err(e) => Err(e),
        },
        DataType::U32 => match read_array(dims, sane_data) {
            Ok(array) => Ok(Sane::ArrayU32(array)),
            Err(e) => Err(e),
        },
        DataType::F64 => match read_array(dims, sane_data) {
            Ok(array) => Ok(Sane::ArrayF64(array)),
            Err(e) => Err(e),
        },
        DataType::I64 => match read_array(dims, sane_data) {
            Ok(array) => Ok(Sane::ArrayI64(array)),
            Err(e) => Err(e),
        },
        DataType::U64 => match read_array(dims, sane_data) {
            Ok(array) => Ok(Sane::ArrayU64(array)),
            Err(e) => Err(e),
        },
        DataType::I8 => match read_array(dims, sane_data) {
            Ok(array) => Ok(Sane::ArrayI8(array)),
            Err(e) => Err(e),
        },
        DataType::U8 => match read_array(dims, sane_data) {
            Ok(array) => Ok(Sane::ArrayU8(array)),
            Err(e) => Err(e),
        },
    }
}

/// A header that was read took at least seventeen bytes off the input, and
/// no read leaves more than there was.
pub proof fn lemma_read_header_rest(input: Seq<u8>)
    ensures
        spec_read_header(input).rest.len() <= input.len(),
        spec_read_header(input).result is Ok ==> spec_read_header(input).rest.len() + 17
            <= input.len(),
{
}

/// An array that was read took bytes off the input, and no read leaves more
/// than there was.
pub proof fn lemma_read_sane_rest<A: SaneData>(input: Seq<u8>, rank: Option<usize>)
    ensures
        spec_read_sane::<A>(input, rank).rest.len() <= input.len(),
        spec_read_sane::<A>(input, rank).result is Ok ==> spec_read_sane::<A>(input, rank).rest.len()
            < input.len(),
{
    reveal(spec_read_sane);
    lemma_read_header_rest(input);
}

/// A dynamic array that was read took bytes off the input, and no read
/// leaves more than there was.
pub proof fn lemma_read_sane_dyn_rest(input: Seq<u8>)
    ensures
        spec_read_sane_dyn(input).rest.len() <= input.len(),
        spec_read_sane_dyn(input).result is Ok ==> spec_read_sane_dyn(input).rest.len()
            < input.len(),
{
    reveal(spec_read_sane_dyn);
    lemma_read_header_rest(input);
}

/// The outcome `others` of reading on, seen from where `values` had been
/// read before: on success the values and the others, else the failure.
pub open spec fn after<T>(values: Seq<T>, others: Parsed<Seq<T>>) -> Parsed<Seq<T>> {
    match others.result {
        Ok(more) => Parsed { result: Ok(values + more), rest: others.rest },
        Err(e) => failed(e, others.rest),
    }
}

/// Reading arrays of a known element type until the stream ends at the
/// border of a record. Any failure but that end is the failure of the whole.
pub open spec fn spec_read_sane_arrays<A: SaneData>(input: Seq<u8>, rank: Option<usize>) -> Parsed<
    Seq<ArrayModel<A>>,
>
    decreases input.len(),
{
    let first = spec_read_sane::<A>(input, rank);
    match first.result {
        Err(ParseError::EOF) => Parsed { result: Ok(Seq::empty()), rest: first.rest },
        Err(e) => failed(e, first.rest),
        Ok(array) => {
            proof {
                lemma_read_sane_rest::<A>(input, rank);
            }
            after(seq![array], spec_read_sane_arrays::<A>(first.rest, rank))
        },
    }
}

/// Reading dynamic arrays until the stream ends at the border of a record.
/// Any failure but that end is the failure of the whole.
pub open spec fn spec_read_sane_arrays_dyn(input: Seq<u8>) -> Parsed<Seq<SaneModel>>
    decreases input.len(),
{
    let first = spec_read_sane_dyn(input);
    match first.result {
        Err(ParseError::EOF) => Parsed { result: Ok(Seq::empty()), rest: first.rest },
        Err(e) => failed(e, first.rest),
        Ok(sane) => {
            proof {
                lemma_read_sane_dyn_rest(input);
            }
            after(seq![sane], spec_read_sane_arrays_dyn(first.rest))
        },
    }
}

/// What arrays stand for, one by one.
pub open spec fn array_models<A>(arrays: Seq<NdArray<A>>) -> Seq<ArrayModel<A>> {
    arrays.map_values(|array: NdArray<A>| array@)
}

/// What dynamic arrays stand for, one by one.
pub open spec fn sane_models(arrays: Seq<Sane>) -> Seq<SaneModel> {
    arrays.map_values(|sane: Sane| sane@)
}

/// What arrays that were read, or the failure to read them, stand for.
pub open spec fn arrays_result_model<A>(r: Result<Vec<NdArray<A>>, ParseError>) -> Result<
    Seq<ArrayModel<A>>,
    ParseError,
> {
    match r {
        Ok(arrays) => Ok(array_models(arrays@)),
        Err(e) => Err(e),
    }
}

/// What dynamic arrays that were read, or the failure to read them, stand
/// for.
pub open spec fn sanes_result_model(r: Result<Vec<Sane>, ParseError>) -> Result<
    Seq<SaneModel>,
    ParseError,
> {
    match r {
        Ok(arrays) => Ok(sane_models(arrays@)),
        Err(e) => Err(e),
    }
}

/// Parse multiple SANE-encoded arrays from a file, up to its end. Where one
/// of them fails, the arrays before it are dropped.
pub fn read_sane_arrays<A: ReadSane>(file: &mut ByteStream, rank: Option<usize>) -> (r: Result<
    Vec<NdArray<A>>,
    ParseError,
>)
    ensures
        arrays_result_model(r) == spec_read_sane_arrays::<A>(old(file)@, rank).result,
        final(file)@ == spec_read_sane_arrays::<A>(old(file)@, rank).rest,
{
    let mut arrays: Vec<NdArray<A>> = Vec::new();
    loop
        invariant
            spec_read_sane_arrays::<A>(old(file)@, rank) == after(
                array_models(arrays@),
                spec_read_sane_arrays::<A>(file@, rank),
            ),
        decreases file@.len(),
    {
        let ghost input = file@;
        let ghost before = array_models(arrays@);
        match read_sane::<A>(file, rank) {
            Ok(array) => {
                proof {
                    lemma_read_sane_rest::<A>(input, rank);
                    let others = spec_read_sane_arrays::<A>(file@, rank);
                    assert(array_models(arrays@.push(array)) =~= before + seq![array@]);
                    match others.result {
                        Ok(more) => {
                            assert(before + (seq![array@] + more) =~= (before + seq![array@])
                                + more);
                        },
                        Err(_) => {},
                    }
                }
                arrays.push(array);
            },
            Err(e) => match e {
                ParseError::EOF => {
                    proof {
                        assert(before + Seq::<ArrayModel<A>>::empty() =~= before);
                    }
                    return Ok(arrays);
                },
                _ => {
                    return Err(e);
                },
            },
        }
    }
}

/// Parse multiple SANE-encoded arrays each with dynamic shape and data
/// type, up to the end of the file. Where one of them fails, the arrays
/// before it are dropped.
pub fn read_sane_arrays_dyn(file: &mut ByteStream) -> (r: Result<Vec<Sane>, ParseError>)
    ensures
        sanes_result_model(r) == spec_read_sane_arrays_dyn(old(file)@).result,
        final(file)@ == spec_read_sane_arrays_dyn(old(file)@).rest,
{
    let mut arrays: Vec<Sane> = Vec::new();
    loop
        invariant
            spec_read_sane_arrays_dyn(old(file)@) == after(
                sane_models(arrays@),
                spec_read_sane_arrays_dyn(file@),
            ),
        decreases file@.len(),
    {
        let ghost input = file@;
        let ghost before = sane_models(arrays@);
        match read_sane_dyn(file) {
            Ok(array) => {
                proof {
                    lemma_read_sane_dyn_rest(input);
                    let others = spec_read_sane_arrays_dyn(file@);
                    assert(sane_models(arrays@.push(array)) =~= before + seq![array@]);
                    match others.result {
                        Ok(more) => {
                            assert(before + (seq![array@] + more) =~= (before + seq![array@])
                                + more);
                        },
                        Err(_) => {},
                    }
                }
                arrays.push(array);
            },
            Err(e) => match e {
                ParseError::EOF => {
                    proof {
                        assert(before + Seq::<SaneModel>::empty() =~= before);
                    }
                    return Ok(arrays);
                },
                _ => {
                    return Err(e);
                },
            },
        }
    }
}

} // verus!
