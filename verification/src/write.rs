//! Writing arrays in SANE encoding to a sink of bytes.
use crate::array::{ArrayModel, NdArray};
use crate::data::{
    data_type_code, magic, spec_data_type_code, DataType, F32Bits, F64Bits, Sane, SaneData,
    SaneModel,
};
use crate::le::{le_bytes, le_encode};
use crate::payload::{element_to_le, spec_data_bytes, spec_elem_bytes};
use vstd::prelude::*;

verus! {

/// To be able to write SANE data we need to be able to convert an element to
/// a byte sequence.
pub trait WriteSane: SaneData {
    /// The little-endian bytes of the element.
    fn to_le_bytes(elem: Self) -> (r: Vec<u8>)
        ensures
            r@ == spec_elem_bytes(elem),
    ;
}

impl WriteSane for F32Bits {
    fn to_le_bytes(elem: F32Bits) -> Vec<u8> {
        element_to_le(elem)
    }
}

impl WriteSane for i32 {
    fn to_le_bytes(elem: i32) -> Vec<u8> {
        element_to_le(elem)
    }
}

impl WriteSane for u32 {
    fn to_le_bytes(elem: u32) -> Vec<u8> {
        element_to_le(elem)
    }
}

impl WriteSane for F64Bits {
    fn to_le_bytes(elem: F64Bits) -> Vec<u8> {
        element_to_le(elem)
    }
}

impl WriteSane for i64 {
    fn to_le_bytes(elem: i64) -> Vec<u8> {
        element_to_le(elem)
    }
}

impl WriteSane for u64 {
    fn to_le_bytes(elem: u64) -> Vec<u8> {
        element_to_le(elem)
    }
}

impl WriteSane for i8 {
    fn to_le_bytes(elem: i8) -> Vec<u8> {
        element_to_le(elem)
    }
}

impl WriteSane for u8 {
    fn to_le_bytes(elem: u8) -> Vec<u8> {
        element_to_le(elem)
    }
}

/// Why an array could not be written.
#[derive(Debug, Clone, Copy, PartialEq, Eq, Structural)]
pub enum WriteError {
    /// The rank of the array is beyond `u32::MAX`.
    ShapeTooLong,
    /// An axis length is beyond `u64::MAX`. Where `usize` has no more than
    /// 64 bits there is no such length.
    DimTooLarge,
    /// The length of the data in bytes is beyond `u64::MAX`.
    TooMuchData,
}

/// The outcome of writing: success or the failure, and the bytes that went
/// out before it.
pub struct Written {
    pub result: Result<(), WriteError>,
    pub bytes: Seq<u8>,
}

/// The axis lengths as the header stores them: eight bytes each, last axis
/// first.
pub open spec fn spec_dims_bytes(shape: Seq<usize>) -> Seq<u8>
    decreases shape.len(),
{
    if shape.len() == 0 {
        Seq::empty()
    } else {
        le_bytes(shape.last() as nat, 8) + spec_dims_bytes(shape.drop_last())
    }
}

/// The header of an array of the given shape and element type with
/// `data_length` bytes of data.
pub open spec fn spec_header_bytes(shape: Seq<usize>, data_type: DataType, data_length: nat) -> Seq<
    u8,
> {
    magic() + le_bytes(shape.len(), 4) + spec_dims_bytes(shape) + seq![
        spec_data_type_code(data_type),
    ] + le_bytes(data_length, 8)
}

/// Writing a header field by field: the magic bytes go out before the rank
/// is refused, and all but the length of the data before that is refused.
pub open spec fn spec_write_header(shape: Seq<usize>, data_type: DataType, data_length: nat) -> Written {
    if shape.len() > u32::MAX {
        Written { result: Err(WriteError::ShapeTooLong), bytes: magic() }
    } else if data_length > u64::MAX {
        Written {
            result: Err(WriteError::TooMuchData),
            bytes: magic() + le_bytes(shape.len(), 4) + spec_dims_bytes(shape) + seq![
                spec_data_type_code(data_type),
            ],
        }
    } else {
        Written { result: Ok(()), bytes: spec_header_bytes(shape, data_type, data_length) }
    }
}

/// The length in bytes of the data of an array.
pub open spec fn spec_data_length<A: SaneData>(array: ArrayModel<A>) -> nat {
    array.elems.len() * A::spec_data_type().spec_size()
}

/// Writing one array: its header, then its data.
pub open spec fn spec_write_sane<A: SaneData>(array: ArrayModel<A>) -> Written {
    let head = spec_write_header(array.shape, A::spec_data_type(), spec_data_length(array));
    match head.result {
        Err(e) => head,
        Ok(_) => Written { result: Ok(()), bytes: head.bytes + spec_data_bytes(array.elems) },
    }
}

/// Writes the header of `array`: the magic bytes, the rank, the axis lengths
/// from the last to the first, the code of the element type and the length of
/// the data in bytes.
///
/// The fields go out one by one. Where the rank is beyond `u32::MAX`, only
/// the magic bytes have gone out; where the data is longer than `u64::MAX`
/// bytes, all but its length.
pub fn write_header<A: SaneData>(file: &mut Vec<u8>, array: &NdArray<A>) -> (r: Result<
    (),
    WriteError,
>)
    ensures
        r == spec_write_header(array@.shape, A::spec_data_type(), spec_data_length(array@)).result,
        final(file)@ == old(file)@ + spec_write_header(
            array@.shape,
            A::spec_data_type(),
            spec_data_length(array@),
        ).bytes,
{
    let shape = array.shape();
    let data_type = A::sane_data_type();
    file.push(0x53);
    file.push(0x41);
    file.push(0x4E);
    file.push(0x45);
    assert(file@ =~= old(file)@ + magic());
    let shape_length = match u32::try_from(shape.len()) {
        Ok(rank) => rank,
        Err(_) => {
            return Err(WriteError::ShapeTooLong);
        },
    };
    let mut shape_length_bytes = le_encode(shape_length as u64, 4);
    file.append(&mut shape_length_bytes);
    let ghost prefix = old(file)@ + magic() + le_bytes(shape@.len(), 4);
    let mut written: usize = 0;
    while written < shape.len()
        invariant
            written <= shape@.len(),
            file@ == prefix + spec_dims_bytes(shape@.skip(shape@.len() - written)),
        decreases shape@.len() - written,
    {
        let dim = shape[shape.len() - 1 - written];
        let dimension = match u64::try_from(dim) {
            Ok(dimension) => dimension,
            Err(_) => {
                return Err(WriteError::DimTooLarge);
            },
        };
        let mut dim_bytes = le_encode(dimension, 8);
        proof {
            lemma_dims_bytes_skip(shape@, shape@.len() - written - 1);
            assert(prefix + spec_dims_bytes(shape@.skip(shape@.len() - written)) + le_bytes(
                dim as nat,
                8,
            ) =~= prefix + (spec_dims_bytes(shape@.skip(shape@.len() - written)) + le_bytes(
                dim as nat,
                8,
            )));
        }
        file.append(&mut dim_bytes);
        written = written + 1;
    }
    assert(shape@.skip(0) =~= shape@);
    let code = data_type_code(data_type);
    file.push(code);
    let size = data_type.size();
    let count = array.len();
    assert(count as u128 * size as u128 == spec_data_length(array@)) by (nonlinear_arith)
        requires
            count == array@.elems.len(),
            size == A::spec_data_type().spec_size(),
            spec_data_length(array@) == array@.elems.len() * A::spec_data_type().spec_size(),
    ;
    assert(count as u128 * size as u128 <= 0x8_0000_0000_0000_0000) by (nonlinear_arith)
        requires
            count <= 0xffff_ffff_ffff_ffff,
            size <= 8,
    ;
    let byte_length: u128 = count as u128 * size as u128;
    let data_length = match u64::try_from(byte_length) {
        Ok(data_length) => data_length,
        Err(_) => {
            assert(file@ =~= old(file)@ + (magic() + le_bytes(shape@.len(), 4) + spec_dims_bytes(
                shape@,
            ) + seq![spec_data_type_code(A::spec_data_type())]));
            return Err(WriteError::TooMuchData);
        },
    };
    let mut data_length_bytes = le_encode(data_length, 8);
    file.append(&mut data_length_bytes);
    assert(file@ =~= old(file)@ + spec_header_bytes(
        shape@,
        A::spec_data_type(),
        spec_data_length(array@),
    ));
    Ok(())
}

/// Writes the data of `array`: its elements in row-major order, each as the
/// little-endian bytes of its type.
pub fn write_data<A: WriteSane>(file: &mut Vec<u8>, array: &NdArray<A>) -> (r: Result<
    (),
    WriteError,
>)
    ensures
        r is Ok,
        final(file)@ == old(file)@ + spec_data_bytes(array@.elems),
{
    let elems = array.as_slice();
    let mut i: usize = 0;
    while i < elems.len()
        invariant
            i <= elems@.len(),
            file@ == old(file)@ + spec_data_bytes(elems@.take(i as int)),
        decreases elems@.len() - i,
    {
        let elem = elems[i];
        let mut elem_bytes = A::to_le_bytes(elem);
        proof {
            let next = elems@.take(i + 1);
            assert(next.drop_last() =~= elems@.take(i as int));
            assert(next.last() == elem);
            assert(old(file)@ + spec_data_bytes(elems@.take(i as int)) + spec_elem_bytes(elem)
                =~= old(file)@ + spec_data_bytes(next));
        }
        file.append(&mut elem_bytes);
        i = i + 1;
    }
    assert(elems@.take(elems@.len() as int) =~= elems@);
    Ok(())
}

/// Write array into a SANE-encoded file: the header, then the data.
///
/// Where the header is refused, what had gone out of it before stays
/// written, and no data follows.
pub fn write_sane<A: WriteSane>(file: &mut Vec<u8>, array: &NdArray<A>) -> (r: Result<
    (),
    WriteError,
>)
    ensures
        r == spec_write_sane(array@).result,
        final(file)@ == old(file)@ + spec_write_sane(array@).bytes,
{
    match write_header(file, array) {
        Ok(_) => {},
        Err(e) => {
            return Err(e);
        },
    }
    let ghost head = spec_write_header(array@.shape, A::spec_data_type(), spec_data_length(array@));
    match write_data(file, array) {
        Ok(_) => {},
        Err(e) => {
            return Err(e);
        },
    }
    assert(file@ =~= old(file)@ + (head.bytes + spec_data_bytes(array@.elems)));
    Ok(())
}

/// Writing one dynamic array: as the array of its element type.
#[verifier::opaque]
pub open spec fn spec_write_sane_dyn(sane: SaneModel) -> Written {
    match sane {
        SaneModel::ArrayF32(array) => spec_write_sane(array),
        SaneModel::ArrayI32(array) => spec_write_sane(array),
        SaneModel::ArrayU32(array) => spec_write_sane(array),
        SaneModel::ArrayF64(array) => spec_write_sane(array),
        SaneModel::ArrayI64(array) => spec_write_sane(array),
        SaneModel::ArrayU64(array) => spec_write_sane(array),
        SaneModel::ArrayI8(array) => spec_write_sane(array),
        SaneModel::ArrayU8(array) => spec_write_sane(array),
    }
}

/// Write an array of dynamic element type into a SANE-encoded file.
pub fn write_sane_dyn(file: &mut Vec<u8>, sane: &Sane) -> (r: Result<(), WriteError>)
    ensures
        r == spec_write_sane_dyn(sane@).result,
        final(file)@ == old(file)@ + spec_write_sane_dyn(sane@).bytes,
{
    proof {
        reveal(spec_write_sane_dyn);
    }
    match sane {
        Sane::ArrayF32(array) => write_sane(file, array),
        Sane::ArrayI32(array) => write_sane(file, array),
        Sane::ArrayU32(array) => write_sane(file, array),
        Sane::ArrayF64(array) => write_sane(file, array),
        Sane::ArrayI64(array) => write_sane(file, array),
        Sane::ArrayU64(array) => write_sane(file, array),
        Sane::ArrayI8(array) => write_sane(file, array),
        Sane::ArrayU8(array) => write_sane(file, array),
    }
}

/// Writing one item after the other, each as `one` says, up to the first
/// that fails: nothing stands between two records.
pub open spec fn spec_write_all<T>(items: Seq<T>, one: spec_fn(T) -> Written) -> Written
    decreases items.len(),
{
    if items.len() == 0 {
        Written { result: Ok(()), bytes: Seq::empty() }
    } else {
        let before = spec_write_all(items.drop_last(), one);
        match before.result {
            Err(e) => before,
            Ok(_) => Written {
                result: one(items.last()).result,
                bytes: before.bytes + one(items.last()).bytes,
            },
        }
    }
}

/// The writing of one array, as a function of the array.
pub open spec fn sane_writer<A: SaneData>() -> spec_fn(ArrayModel<A>) -> Written {
    |array: ArrayModel<A>| spec_write_sane(array)
}

/// The writing of one dynamic array, as a function of the array.
pub open spec fn sane_dyn_writer() -> spec_fn(SaneModel) -> Written {
    |sane: SaneModel| spec_write_sane_dyn(sane)
}

/// Writing arrays of one element type, one record after the other.
pub open spec fn spec_write_sane_arrays<A: SaneData>(arrays: Seq<ArrayModel<A>>) -> Written {
    spec_write_all(arrays, sane_writer::<A>())
}

/// Writing dynamic arrays, one record after the other.
pub open spec fn spec_write_sane_arrays_dyn(arrays: Seq<SaneModel>) -> Written {
    spec_write_all(arrays, sane_dyn_writer())
}

/// Once an item has failed, the items behind it change nothing.
pub proof fn lemma_write_all_failed<T>(items: Seq<T>, one: spec_fn(T) -> Written, upto: int)
    requires
        0 <= upto <= items.len(),
        spec_write_all(items.take(upto), one).result is Err,
    ensures
        spec_write_all(items, one) == spec_write_all(items.take(upto), one),
    decreases items.len() - upto,
{
    if upto == items.len() {
        assert(items.take(upto) =~= items);
    } else {
        assert(items.take(upto + 1).drop_last() =~= items.take(upto));
        lemma_write_all_failed(items, one, upto + 1);
    }
}

/// Write multiple SANE-encoded arrays to a file, one after the other. The
/// first array that fails ends the writing.
pub fn write_sane_arrays<A: WriteSane>(file: &mut Vec<u8>, arrays: &[NdArray<A>]) -> (r: Result<
    (),
    WriteError,
>)
    ensures
        r == spec_write_sane_arrays(crate::read::array_models(arrays@)).result,
        final(file)@ == old(file)@ + spec_write_sane_arrays(
            crate::read::array_models(arrays@),
        ).bytes,
{
    let ghost models = crate::read::array_models(arrays@);
    let ghost one = sane_writer::<A>();
    let mut i: usize = 0;
    while i < arrays.len()
        invariant
            i <= arrays@.len(),
            models == crate::read::array_models(arrays@),
            one == sane_writer::<A>(),
            spec_write_all(models.take(i as int), one).result is Ok,
            file@ == old(file)@ + spec_write_all(models.take(i as int), one).bytes,
        decreases arrays@.len() - i,
    {
        proof {
            assert(models.take(i + 1).drop_last() =~= models.take(i as int));
            assert(models.take(i + 1).last() == arrays@[i as int]@);
        }
        let ghost before = file@;
        match write_sane(file, &arrays[i]) {
            Ok(_) => {},
            Err(e) => {
                proof {
                    let failed = spec_write_all(models.take(i + 1), one);
                    assert(file@ =~= old(file)@ + failed.bytes);
                    lemma_write_all_failed(models, one, i + 1);
                }
                return Err(e);
            },
        }
        proof {
            assert(file@ =~= old(file)@ + spec_write_all(models.take(i + 1), one).bytes);
        }
        i = i + 1;
    }
    assert(models.take(arrays@.len() as int) =~= models);
    assert(spec_write_all(models, one).result->Ok_0 == ());
    Ok(())
}

/// Write multiple SANE-encoded arrays of dynamic element type to a file, one
/// after the other. The first array that fails ends the writing.
pub fn write_sane_arrays_dyn(file: &mut Vec<u8>, arrays: &[Sane]) -> (r: Result<(), WriteError>)
    ensures
        r == spec_write_sane_arrays_dyn(crate::read::sane_models(arrays@)).result,
        final(file)@ == old(file)@ + spec_write_sane_arrays_dyn(
            crate::read::sane_models(arrays@),
        ).bytes,
{
    let ghost models = crate::read::sane_models(arrays@);
    let ghost one = sane_dyn_writer();
    let mut i: usize = 0;
    while i < arrays.len()
        invariant
            i <= arrays@.len(),
            models == crate::read::sane_models(arrays@),
            one == sane_dyn_writer(),
            spec_write_all(models.take(i as int), one).result is Ok,
            file@ == old(file)@ + spec_write_all(models.take(i as int), one).bytes,
        decreases arrays@.len() - i,
    {
        proof {
            assert(models.take(i + 1).drop_last() =~= models.take(i as int));
            assert(models.take(i + 1).last() == arrays@[i as int]@);
        }
        match write_sane_dyn(file, &arrays[i]) {
            Ok(_) => {},
            Err(e) => {
                proof {
                    let failed = spec_write_all(models.take(i + 1), one);
                    assert(file@ =~= old(file)@ + failed.bytes);
                    lemma_write_all_failed(models, one, i + 1);
                }
                return Err(e);
            },
        }
        proof {
            assert(file@ =~= old(file)@ + spec_write_all(models.take(i + 1), one).bytes);
        }
        i = i + 1;
    }
    assert(models.take(arrays@.len() as int) =~= models);
    assert(spec_write_all(models, one).result->Ok_0 == ());
    Ok(())
}

/// The axis lengths from some axis on take the bytes of that axis after
/// those of the axes behind it.
proof fn lemma_dims_bytes_skip(shape: Seq<usize>, from: int)
    requires
        0 <= from < shape.len(),
    ensures
        spec_dims_bytes(shape.skip(from)) == spec_dims_bytes(shape.skip(from + 1)) + le_bytes(
            shape[from] as nat,
            8,
        ),
    decreases shape.len() - from,
{
    let tail = shape.skip(from);
    if from + 1 == shape.len() {
        assert(tail.drop_last() =~= shape.skip(from + 1));
        assert(spec_dims_bytes(shape.skip(from + 1)) =~= Seq::<u8>::empty());
        assert(spec_dims_bytes(tail) =~= le_bytes(shape[from] as nat, 8));
    } else {
        lemma_dims_bytes_skip(shape, from + 1);
        lemma_dims_bytes_skip(shape.drop_last(), from);
        assert(tail.drop_last() =~= shape.drop_last().skip(from));
        assert(shape.skip(from + 1).drop_last() =~= shape.drop_last().skip(from + 1));
        assert(tail.last() == shape.last());
        assert(shape.skip(from + 1).last() == shape.last());
        assert(spec_dims_bytes(tail) =~= spec_dims_bytes(shape.skip(from + 1)) + le_bytes(
            shape[from] as nat,
            8,
        ));
    }
}

} // verus!
