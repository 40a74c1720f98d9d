//! What holds of writing and reading together: an array that was written is
//! read back as it was, and so is a sequence of arrays.
use crate::array::{ArrayModel, ShapeErrorKind};
use crate::data::{
    lemma_parse_of_code, magic, spec_data_type_code, DataType, HeaderModel, SaneData, SaneModel,
};
use crate::le::{
    le_bytes, lemma_le_bytes_len, lemma_le_value_bound, lemma_le_value_of_bytes,
    lemma_pow256_values,
};
use crate::payload::{lemma_data_bytes_len, lemma_elems_of_data_bytes, spec_data_bytes};
use crate::read::{
    failed, spec_dims_fit, spec_next_read, spec_read_array, spec_read_array_dyn, spec_read_data,
    spec_read_dims, spec_read_header, spec_read_rank, spec_read_sane, spec_read_sane_arrays,
    spec_read_sane_arrays_dyn, spec_read_sane_dyn, spec_read_type_and_length, spec_shape,
    spec_wire_dim, ParseError, Parsed,
};
use crate::write::{
    sane_dyn_writer, sane_writer, spec_data_length, spec_dims_bytes, spec_header_bytes,
    spec_write_all, spec_write_sane, spec_write_sane_arrays, spec_write_sane_arrays_dyn,
    spec_write_sane_dyn, Written,
};
use vstd::prelude::*;

verus! {

/// Whether an array can be written and read back: it is well formed, its
/// rank is no more than `u32::MAX`, and its data is no longer than
/// `usize::MAX` bytes. A higher rank cannot be written, and longer data
/// cannot be read.
pub open spec fn round_trips<A: SaneData>(array: ArrayModel<A>) -> bool {
    &&& array.wf()
    &&& array.shape.len() <= u32::MAX
    &&& spec_data_length(array) <= usize::MAX
}

/// Whether a dynamic array can be written and read back: it is well formed,
/// its rank is no more than `u32::MAX`, and its data is no longer than
/// `usize::MAX` bytes.
pub open spec fn sane_round_trips(sane: SaneModel) -> bool {
    &&& sane.wf()
    &&& sane_shape(sane).len() <= u32::MAX
    &&& sane_data_length(sane) <= usize::MAX
}

/// Whether the rank that a reader asks for is that of the shape: any shape
/// will do where it asks for none.
pub open spec fn rank_agrees(rank: Option<usize>, shape: Seq<usize>) -> bool {
    rank is None || rank == Some(shape.len() as usize)
}

/// The shape of a dynamic array.
pub open spec fn sane_shape(sane: SaneModel) -> Seq<usize> {
    match sane {
        SaneModel::ArrayF32(array) => array.shape,
        SaneModel::ArrayI32(array) => array.shape,
        SaneModel::ArrayU32(array) => array.shape,
        SaneModel::ArrayF64(array) => array.shape,
        SaneModel::ArrayI64(array) => array.shape,
        SaneModel::ArrayU64(array) => array.shape,
        SaneModel::ArrayI8(array) => array.shape,
        SaneModel::ArrayU8(array) => array.shape,
    }
}

/// The length in bytes of the data of a dynamic array.
pub open spec fn sane_data_length(sane: SaneModel) -> nat {
    match sane {
        SaneModel::ArrayF32(array) => spec_data_length(array),
        SaneModel::ArrayI32(array) => spec_data_length(array),
        SaneModel::ArrayU32(array) => spec_data_length(array),
        SaneModel::ArrayF64(array) => spec_data_length(array),
        SaneModel::ArrayI64(array) => spec_data_length(array),
        SaneModel::ArrayU64(array) => spec_data_length(array),
        SaneModel::ArrayI8(array) => spec_data_length(array),
        SaneModel::ArrayU8(array) => spec_data_length(array),
    }
}

/// The length of the header of an array of the given rank.
pub open spec fn spec_header_length(rank: nat) -> nat {
    17 + 8 * rank
}

/// The failure that reading gives of a record of the given rank that was cut
/// to `cut` bytes.
pub open spec fn spec_truncation(cut: int, rank: nat) -> ParseError {
    if cut == 0 {
        ParseError::EOF
    } else if cut < spec_header_length(rank) {
        ParseError::TruncatedHeader
    } else {
        ParseError::TruncatedPayload
    }
}

/// Whether `record` holds a whole record: a header that can be read and
/// all the data that it announces.
pub open spec fn is_whole_record(record: Seq<u8>) -> bool {
    let head = spec_read_header(record);
    head.result matches Ok(header) && spec_read_data(head.rest, header.data_length).result is Ok
}

/// The axis lengths of a header take eight bytes each.
pub proof fn lemma_dims_bytes_len(shape: Seq<usize>)
    ensures
        spec_dims_bytes(shape).len() == 8 * shape.len(),
    decreases shape.len(),
{
    if shape.len() > 0 {
        lemma_dims_bytes_len(shape.drop_last());
        lemma_le_bytes_len(shape.last() as nat, 8);
    }
}

/// The `i`-th run of eight bytes among the axis lengths of a header holds
/// the `i`-th axis from the end.
pub proof fn lemma_dims_bytes_chunk(shape: Seq<usize>, i: int)
    requires
        0 <= i < shape.len(),
    ensures
        spec_wire_dim(spec_dims_bytes(shape), i) == shape[shape.len() - 1 - i] as nat,
    decreases shape.len(),
{
    let front = shape.drop_last();
    let first = le_bytes(shape.last() as nat, 8);
    let dims = spec_dims_bytes(shape);
    lemma_dims_bytes_len(front);
    lemma_le_bytes_len(shape.last() as nat, 8);
    lemma_pow256_values();
    if i == 0 {
        assert(dims.subrange(0, 8) =~= first);
        lemma_le_value_of_bytes(shape.last() as nat, 8);
    } else {
        lemma_dims_bytes_chunk(front, i - 1);
        assert(dims.subrange(8 * i, 8 * i + 8) =~= spec_dims_bytes(front).subrange(
            8 * (i - 1),
            8 * (i - 1) + 8,
        ));
        assert(front[front.len() - 1 - (i - 1)] == shape[shape.len() - 1 - i]);
    }
}

/// The axis lengths that were written are read back as the shape.
pub proof fn lemma_shape_of_dims_bytes(shape: Seq<usize>)
    ensures
        spec_dims_bytes(shape).len() == 8 * shape.len(),
        spec_dims_fit(spec_dims_bytes(shape)),
        spec_shape(spec_dims_bytes(shape)) == shape,
{
    let dims = spec_dims_bytes(shape);
    lemma_dims_bytes_len(shape);
    assert(dims.len() / 8 == shape.len());
    assert forall|i: int| 0 <= i < shape.len() implies spec_wire_dim(dims, i) == shape[shape.len()
        - 1 - i] as nat by {
        lemma_dims_bytes_chunk(shape, i);
    }
    assert(spec_shape(dims) =~= shape);
}

/// A header takes seventeen bytes and eight for each axis.
pub proof fn lemma_header_bytes_len(shape: Seq<usize>, data_type: DataType, data_length: nat)
    ensures
        spec_header_bytes(shape, data_type, data_length).len() == spec_header_length(shape.len()),
{
    lemma_le_bytes_len(shape.len(), 4);
    lemma_le_bytes_len(data_length, 8);
    lemma_dims_bytes_len(shape);
}

/// The magic bytes are passed over, and the reading goes on behind them.
proof fn lemma_read_written_magic(tail: Seq<u8>)
    ensures
        spec_read_header(magic() + tail) == spec_read_rank(tail),
{
    let input = magic() + tail;
    assert(input.take(4) =~= magic());
    assert(input.skip(4) =~= tail);
}

/// Behind the magic bytes: a rank that was written is read back, and the
/// reading goes on behind it.
proof fn lemma_read_written_rank(rank: usize, tail: Seq<u8>)
    requires
        rank <= u32::MAX,
    ensures
        spec_read_rank(le_bytes(rank as nat, 4) + tail) == spec_read_dims(tail, rank),
{
    let rank_bytes = le_bytes(rank as nat, 4);
    let input = rank_bytes + tail;
    lemma_pow256_values();
    lemma_le_bytes_len(rank as nat, 4);
    lemma_le_value_of_bytes(rank as nat, 4);
    assert(input.take(4) =~= rank_bytes);
    assert(input.skip(4) =~= tail);
}

/// Behind the rank: the axis lengths that were written are read back as the
/// shape, and the reading goes on behind them.
proof fn lemma_read_written_dims(shape: Seq<usize>, tail: Seq<u8>)
    requires
        shape.len() <= usize::MAX,
    ensures
        spec_read_dims(spec_dims_bytes(shape) + tail, shape.len() as usize)
            == spec_read_type_and_length(tail, shape),
{
    let dims = spec_dims_bytes(shape);
    let input = dims + tail;
    let rank = shape.len() as usize;
    lemma_shape_of_dims_bytes(shape);
    assert(input.take(8 * rank) =~= dims);
    assert(input.skip(8 * rank) =~= tail);
}

/// Behind the axis lengths: the code of an element type and a length that
/// were written are read back, and what follows is left unread.
proof fn lemma_read_written_type_and_length(
    shape: Seq<usize>,
    data_type: DataType,
    data_length: usize,
    tail: Seq<u8>,
)
    ensures
        spec_read_type_and_length(
            seq![spec_data_type_code(data_type)] + le_bytes(data_length as nat, 8) + tail,
            shape,
        ) == (Parsed { result: Ok(HeaderModel { shape, data_type, data_length }), rest: tail }),
{
    let code = spec_data_type_code(data_type);
    let length_bytes = le_bytes(data_length as nat, 8);
    let input = seq![code] + length_bytes + tail;
    lemma_pow256_values();
    lemma_le_bytes_len(data_length as nat, 8);
    lemma_le_value_of_bytes(data_length as nat, 8);
    lemma_parse_of_code(data_type);
    assert(input[0] == code);
    assert(input.subrange(1, 9) =~= length_bytes);
    assert(input.skip(9) =~= tail);
}

/// A header that was written is read back as it was, and what follows it
/// is left unread.
pub proof fn lemma_read_written_header(
    shape: Seq<usize>,
    data_type: DataType,
    data_length: usize,
    tail: Seq<u8>,
)
    requires
        shape.len() <= u32::MAX,
    ensures
        spec_read_header(spec_header_bytes(shape, data_type, data_length as nat) + tail) == (Parsed {
            result: Ok(HeaderModel { shape, data_type, data_length }),
            rest: tail,
        }),
{
    let rank_bytes = le_bytes(shape.len(), 4);
    let dims = spec_dims_bytes(shape);
    let after_dims = seq![spec_data_type_code(data_type)] + le_bytes(data_length as nat, 8) + tail;
    let after_rank = dims + after_dims;
    let after_magic = rank_bytes + after_rank;
    let input = spec_header_bytes(shape, data_type, data_length as nat) + tail;
    assert(input =~= magic() + after_magic);
    lemma_read_written_magic(after_magic);
    lemma_read_written_rank(shape.len() as usize, after_rank);
    lemma_read_written_dims(shape, after_dims);
    lemma_read_written_type_and_length(shape, data_type, data_length, tail);
}

/// A header that was written and then cut short, but not to nothing, is
/// refused as truncated, and nothing of it is left unread.
pub proof fn lemma_read_truncated_header(
    shape: Seq<usize>,
    data_type: DataType,
    data_length: usize,
    cut: int,
)
    requires
        shape.len() <= u32::MAX,
        0 < cut < spec_header_length(shape.len()),
    ensures
        spec_read_header(spec_header_bytes(shape, data_type, data_length as nat).take(cut))
            == failed::<HeaderModel>(ParseError::TruncatedHeader, Seq::empty()),
{
    let rank = shape.len() as usize;
    let rank_bytes = le_bytes(shape.len(), 4);
    let dims = spec_dims_bytes(shape);
    let code = seq![spec_data_type_code(data_type)];
    let length_bytes = le_bytes(data_length as nat, 8);
    let header = spec_header_bytes(shape, data_type, data_length as nat);
    let input = header.take(cut);
    lemma_header_bytes_len(shape, data_type, data_length as nat);
    lemma_le_bytes_len(shape.len(), 4);
    lemma_le_bytes_len(data_length as nat, 8);
    lemma_dims_bytes_len(shape);
    if cut >= 4 {
        let after_magic = input.skip(4);
        assert(input.take(4) =~= magic());
        assert(after_magic =~= (rank_bytes + dims + code + length_bytes).take(cut - 4));
        assert(spec_read_header(input) == spec_read_rank(after_magic));
        if cut >= 8 {
            let after_rank = after_magic.skip(4);
            assert(after_magic.take(4) =~= rank_bytes);
            assert(after_rank =~= (dims + code + length_bytes).take(cut - 8));
            lemma_pow256_values();
            lemma_le_value_of_bytes(shape.len(), 4);
            assert(spec_read_rank(after_magic) == spec_read_dims(after_rank, rank));
            if cut - 8 >= 8 * rank {
                let after_dims = after_rank.skip(8 * rank);
                assert(after_rank.take(8 * rank) =~= dims);
                assert(after_dims =~= (code + length_bytes).take(cut - 8 - 8 * rank));
                lemma_shape_of_dims_bytes(shape);
                assert(spec_read_dims(after_rank, rank) == spec_read_type_and_length(
                    after_dims,
                    shape,
                ));
                if after_dims.len() >= 1 {
                    assert(after_dims[0] == spec_data_type_code(data_type));
                    lemma_parse_of_code(data_type);
                    assert(after_dims.len() < 9);
                }
            }
        }
    }
}

/// The data that was written after a header is read back as the array.
proof fn lemma_read_written_data<A: SaneData>(array: ArrayModel<A>, tail: Seq<u8>)
    requires
        array.wf(),
        spec_data_length(array) <= usize::MAX,
    ensures
        spec_read_data(spec_data_bytes(array.elems) + tail, spec_data_length(array) as usize) == (
        Parsed { result: Ok(spec_data_bytes(array.elems)), rest: tail }),
        spec_read_array::<A>(array.shape, spec_data_bytes(array.elems)) == Ok::<
            ArrayModel<A>,
            ParseError,
        >(array),
{
    let data = spec_data_bytes(array.elems);
    lemma_data_bytes_len(array.elems);
    lemma_elems_of_data_bytes(array.elems);
    assert(data.len() == spec_data_length(array));
    assert((data + tail).take(data.len() as int) =~= data);
    assert((data + tail).skip(data.len() as int) =~= tail);
}

/// Round trip: an array that was written is read back as it was, by a reader
/// that asks for its element type and for its rank or for none, and what
/// follows the record is left unread.
///
/// It holds of every well-formed array of a rank up to `u32::MAX` whose
/// data is no longer than `usize::MAX` bytes.
pub proof fn lemma_read_written_sane<A: SaneData>(
    array: ArrayModel<A>,
    rank: Option<usize>,
    tail: Seq<u8>,
)
    requires
        round_trips(array),
        rank_agrees(rank, array.shape),
    ensures
        spec_write_sane(array).result is Ok,
        spec_read_sane::<A>(spec_write_sane(array).bytes + tail, rank) == (Parsed {
            result: Ok(array),
            rest: tail,
        }),
{
    reveal(spec_read_sane);
    let data_length = spec_data_length(array) as usize;
    let head = spec_header_bytes(array.shape, A::spec_data_type(), data_length as nat);
    let data = spec_data_bytes(array.elems);
    let input = spec_write_sane(array).bytes + tail;
    assert(input =~= head + (data + tail));
    lemma_read_written_header(array.shape, A::spec_data_type(), data_length, data + tail);
    lemma_read_written_data(array, tail);
}

/// A record that was written for an array is read back, without a type
/// asked for, as the dynamic array that its element type makes of it.
proof fn lemma_read_written_as_dyn<A: SaneData>(
    array: ArrayModel<A>,
    sane: SaneModel,
    tail: Seq<u8>,
)
    requires
        round_trips(array),
        spec_read_array_dyn(A::spec_data_type(), array.shape, spec_data_bytes(array.elems)) == Ok::<
            SaneModel,
            ParseError,
        >(sane),
    ensures
        spec_read_sane_dyn(spec_write_sane(array).bytes + tail) == (Parsed {
            result: Ok(sane),
            rest: tail,
        }),
{
    reveal(spec_read_sane_dyn);
    let data_length = spec_data_length(array) as usize;
    let head = spec_header_bytes(array.shape, A::spec_data_type(), data_length as nat);
    let data = spec_data_bytes(array.elems);
    let input = spec_write_sane(array).bytes + tail;
    assert(input =~= head + (data + tail));
    lemma_read_written_header(array.shape, A::spec_data_type(), data_length, data + tail);
    lemma_read_written_data(array, tail);
}

/// Round trip of a dynamic array: it is read back as it was, in the
/// variant of its element type, and what follows the record is left unread.
pub proof fn lemma_read_written_sane_dyn(sane: SaneModel, tail: Seq<u8>)
    requires
        sane_round_trips(sane),
    ensures
        spec_write_sane_dyn(sane).result is Ok,
        spec_read_sane_dyn(spec_write_sane_dyn(sane).bytes + tail) == (Parsed {
            result: Ok(sane),
            rest: tail,
        }),
{
    reveal(spec_write_sane_dyn);
    match sane {
        SaneModel::ArrayF32(array) => {
            lemma_elems_of_data_bytes(array.elems);
            lemma_read_written_as_dyn(array, sane, tail);
        },
        SaneModel::ArrayI32(array) => {
            lemma_elems_of_data_bytes(array.elems);
            lemma_read_written_as_dyn(array, sane, tail);
        },
        SaneModel::ArrayU32(array) => {
            lemma_elems_of_data_bytes(array.elems);
            lemma_read_written_as_dyn(array, sane, tail);
        },
        SaneModel::ArrayF64(array) => {
            lemma_elems_of_data_bytes(array.elems);
            lemma_read_written_as_dyn(array, sane, tail);
        },
        SaneModel::ArrayI64(array) => {
            lemma_elems_of_data_bytes(array.elems);
            lemma_read_written_as_dyn(array, sane, tail);
        },
        SaneModel::ArrayU64(array) => {
            lemma_elems_of_data_bytes(array.elems);
            lemma_read_written_as_dyn(array, sane, tail);
        },
        SaneModel::ArrayI8(array) => {
            lemma_elems_of_data_bytes(array.elems);
            lemma_read_written_as_dyn(array, sane, tail);
        },
        SaneModel::ArrayU8(array) => {
            lemma_elems_of_data_bytes(array.elems);
            lemma_read_written_as_dyn(array, sane, tail);
        },
    }
}

/// Rank mismatch: an array that was written is refused, as a shape that
/// does not fit, by a reader that asks for its element type and for another
/// rank than it has. The record is used up all the same.
pub proof fn lemma_read_written_wrong_rank<A: SaneData>(
    array: ArrayModel<A>,
    rank: usize,
    tail: Seq<u8>,
)
    requires
        round_trips(array),
        rank != array.shape.len(),
    ensures
        spec_read_sane::<A>(spec_write_sane(array).bytes + tail, Some(rank)) == failed::<
            ArrayModel<A>,
        >(ParseError::ShapeError(ShapeErrorKind::IncompatibleShape), tail),
{
    reveal(spec_read_sane);
    let data_length = spec_data_length(array) as usize;
    let head = spec_header_bytes(array.shape, A::spec_data_type(), data_length as nat);
    let data = spec_data_bytes(array.elems);
    let input = spec_write_sane(array).bytes + tail;
    assert(input =~= head + (data + tail));
    lemma_read_written_header(array.shape, A::spec_data_type(), data_length, data + tail);
    lemma_read_written_data(array, tail);
}

/// Wrong-type guard: an array that was written is refused by a reader that
/// asks for another element type, which is told the type that the record
/// has. The data of the record is left unread.
pub proof fn lemma_read_written_wrong_type<A: SaneData, B: SaneData>(
    array: ArrayModel<A>,
    rank: Option<usize>,
    tail: Seq<u8>,
)
    requires
        round_trips(array),
        A::spec_data_type() != B::spec_data_type(),
    ensures
        spec_read_sane::<B>(spec_write_sane(array).bytes + tail, rank) == failed::<
            ArrayModel<B>,
        >(ParseError::WrongDataType(A::spec_data_type()), spec_data_bytes(array.elems) + tail),
{
    reveal(spec_read_sane);
    let data_length = spec_data_length(array) as usize;
    let head = spec_header_bytes(array.shape, A::spec_data_type(), data_length as nat);
    let data = spec_data_bytes(array.elems);
    let input = spec_write_sane(array).bytes + tail;
    assert(input =~= head + (data + tail));
    lemma_read_written_header(array.shape, A::spec_data_type(), data_length, data + tail);
}

/// Corruption by truncation: a record that was written and then cut short
/// is never read as an array. Cut to nothing it reads as the end of the
/// stream; cut within the header, as a truncated header; cut within the data,
/// as truncated data.
pub proof fn lemma_read_truncated_sane<A: SaneData>(
    array: ArrayModel<A>,
    rank: Option<usize>,
    cut: int,
)
    requires
        round_trips(array),
        0 <= cut < spec_write_sane(array).bytes.len(),
    ensures
        spec_read_sane::<A>(spec_write_sane(array).bytes.take(cut), rank).result == Err::<
            ArrayModel<A>,
            ParseError,
        >(spec_truncation(cut, array.shape.len())),
{
    reveal(spec_read_sane);
    let data_length = spec_data_length(array) as usize;
    let head = spec_header_bytes(array.shape, A::spec_data_type(), data_length as nat);
    let data = spec_data_bytes(array.elems);
    let record = spec_write_sane(array).bytes;
    lemma_header_bytes_len(array.shape, A::spec_data_type(), data_length as nat);
    lemma_data_bytes_len(array.elems);
    if cut == 0 {
        assert(record.take(cut).len() == 0);
    } else if cut < head.len() {
        assert(record.take(cut) =~= head.take(cut));
        lemma_read_truncated_header(array.shape, A::spec_data_type(), data_length, cut);
    } else {
        let part = data.take(cut - head.len());
        assert(record.take(cut) =~= head + part);
        lemma_read_written_header(array.shape, A::spec_data_type(), data_length, part);
    }
}

/// A record that was written for an array and then cut short is never read
/// as a dynamic array either.
proof fn lemma_read_truncated_as_dyn<A: SaneData>(array: ArrayModel<A>, cut: int)
    requires
        round_trips(array),
        0 <= cut < spec_write_sane(array).bytes.len(),
    ensures
        spec_read_sane_dyn(spec_write_sane(array).bytes.take(cut)).result == Err::<
            SaneModel,
            ParseError,
        >(spec_truncation(cut, array.shape.len())),
{
    reveal(spec_read_sane_dyn);
    let data_length = spec_data_length(array) as usize;
    let head = spec_header_bytes(array.shape, A::spec_data_type(), data_length as nat);
    let data = spec_data_bytes(array.elems);
    let record = spec_write_sane(array).bytes;
    lemma_header_bytes_len(array.shape, A::spec_data_type(), data_length as nat);
    lemma_data_bytes_len(array.elems);
    if cut == 0 {
        assert(record.take(cut).len() == 0);
    } else if cut < head.len() {
        assert(record.take(cut) =~= head.take(cut));
        lemma_read_truncated_header(array.shape, A::spec_data_type(), data_length, cut);
    } else {
        let part = data.take(cut - head.len());
        assert(record.take(cut) =~= head + part);
        lemma_read_written_header(array.shape, A::spec_data_type(), data_length, part);
    }
}

/// Corruption by truncation, for the reader that asks for no type: a record
/// that was written and then cut short is never read as a dynamic array. It
/// fails as it does for the reader that asks for its type.
pub proof fn lemma_read_truncated_sane_dyn(sane: SaneModel, cut: int)
    requires
        sane_round_trips(sane),
        0 <= cut < spec_write_sane_dyn(sane).bytes.len(),
    ensures
        spec_read_sane_dyn(spec_write_sane_dyn(sane).bytes.take(cut)).result == Err::<
            SaneModel,
            ParseError,
        >(spec_truncation(cut, sane_shape(sane).len())),
{
    reveal(spec_write_sane_dyn);
    match sane {
        SaneModel::ArrayF32(array) => lemma_read_truncated_as_dyn(array, cut),
        SaneModel::ArrayI32(array) => lemma_read_truncated_as_dyn(array, cut),
        SaneModel::ArrayU32(array) => lemma_read_truncated_as_dyn(array, cut),
        SaneModel::ArrayF64(array) => lemma_read_truncated_as_dyn(array, cut),
        SaneModel::ArrayI64(array) => lemma_read_truncated_as_dyn(array, cut),
        SaneModel::ArrayU64(array) => lemma_read_truncated_as_dyn(array, cut),
        SaneModel::ArrayI8(array) => lemma_read_truncated_as_dyn(array, cut),
        SaneModel::ArrayU8(array) => lemma_read_truncated_as_dyn(array, cut),
    }
}

/// Items that are each written without failure are written without failure
/// one after the other, and the first one's bytes come first.
pub proof fn lemma_write_all_ok<T>(items: Seq<T>, one: spec_fn(T) -> Written)
    requires
        forall|i: int| 0 <= i < items.len() ==> (#[trigger] one(items[i])).result is Ok,
    ensures
        spec_write_all(items, one).result is Ok,
        items.len() == 0 ==> spec_write_all(items, one).bytes == Seq::<u8>::empty(),
        items.len() > 0 ==> spec_write_all(items, one).bytes == one(items[0]).bytes
            + spec_write_all(items.skip(1), one).bytes,
    decreases items.len(),
{
    if items.len() > 0 {
        let front = items.drop_last();
        assert forall|i: int| 0 <= i < front.len() implies (#[trigger] one(front[i])).result
            is Ok by {
            assert(front[i] == items[i]);
        }
        lemma_write_all_ok(front, one);
        if items.len() == 1 {
            assert(items.skip(1) =~= Seq::<T>::empty());
            assert(spec_write_all(items, one).bytes =~= one(items[0]).bytes + spec_write_all(
                items.skip(1),
                one,
            ).bytes);
        } else {
            let tail = items.skip(1);
            assert forall|i: int| 0 <= i < tail.len() implies (#[trigger] one(tail[i])).result
                is Ok by {
                assert(tail[i] == items[i + 1]);
            }
            assert(tail.drop_last() =~= front.skip(1));
            lemma_write_all_ok(tail.drop_last(), one);
            assert(tail.last() == items.last());
            assert(front[0] == items[0]);
            assert(spec_write_all(items, one).bytes =~= one(items[0]).bytes + spec_write_all(
                tail,
                one,
            ).bytes);
        }
    }
}

/// At the end of a stream there is no further array: reading all of them
/// gives none and is no failure.
pub proof fn lemma_read_at_end<A: SaneData>(rank: Option<usize>)
    ensures
        spec_read_sane_arrays::<A>(Seq::empty(), rank) == (Parsed {
            result: Ok(Seq::<ArrayModel<A>>::empty()),
            rest: Seq::<u8>::empty(),
        }),
        spec_read_sane_arrays_dyn(Seq::empty()) == (Parsed {
            result: Ok(Seq::<SaneModel>::empty()),
            rest: Seq::<u8>::empty(),
        }),
{
    reveal(spec_read_sane);
    reveal(spec_read_sane_dyn);
}

/// Round trip of a stream of arrays of one element type: the arrays that
/// were written one after the other are read back as they were, in their
/// order, by a reader that asks for their rank or for none, and the stream is
/// then at its end.
pub proof fn lemma_read_written_sane_arrays<A: SaneData>(
    arrays: Seq<ArrayModel<A>>,
    rank: Option<usize>,
)
    requires
        forall|i: int|
            0 <= i < arrays.len() ==> round_trips(#[trigger] arrays[i]) && rank_agrees(
                rank,
                arrays[i].shape,
            ),
    ensures
        spec_write_sane_arrays(arrays).result is Ok,
        spec_read_sane_arrays::<A>(spec_write_sane_arrays(arrays).bytes, rank) == (Parsed {
            result: Ok(arrays),
            rest: Seq::<u8>::empty(),
        }),
    decreases arrays.len(),
{
    let one = sane_writer::<A>();
    assert forall|i: int| 0 <= i < arrays.len() implies (#[trigger] one(arrays[i])).result
        is Ok by {
        assert(round_trips(arrays[i]));
    }
    lemma_write_all_ok(arrays, one);
    if arrays.len() == 0 {
        lemma_read_at_end::<A>(rank);
        assert(arrays =~= Seq::<ArrayModel<A>>::empty());
    } else {
        let others = arrays.skip(1);
        assert forall|i: int| 0 <= i < others.len() implies round_trips(#[trigger] others[i])
            && rank_agrees(rank, others[i].shape) by {
            assert(others[i] == arrays[i + 1]);
        }
        lemma_read_written_sane_arrays(others, rank);
        assert(round_trips(arrays[0]));
        lemma_read_written_sane(arrays[0], rank, spec_write_sane_arrays(others).bytes);
        assert(seq![arrays[0]] + others =~= arrays);
    }
}

/// Round trip of a stream of dynamic arrays: the arrays that were written
/// one after the other are read back as they were, in their order, and the
/// stream is then at its end.
pub proof fn lemma_read_written_sane_arrays_dyn(arrays: Seq<SaneModel>)
    requires
        forall|i: int| 0 <= i < arrays.len() ==> sane_round_trips(#[trigger] arrays[i]),
    ensures
        spec_write_sane_arrays_dyn(arrays).result is Ok,
        spec_read_sane_arrays_dyn(spec_write_sane_arrays_dyn(arrays).bytes) == (Parsed {
            result: Ok(arrays),
            rest: Seq::<u8>::empty(),
        }),
    decreases arrays.len(),
{
    let one = sane_dyn_writer();
    assert forall|i: int| 0 <= i < arrays.len() implies (#[trigger] one(arrays[i])).result
        is Ok by {
        lemma_read_written_sane_dyn(arrays[i], Seq::empty());
    }
    lemma_write_all_ok(arrays, one);
    if arrays.len() == 0 {
        lemma_read_at_end::<u8>(None);
        assert(arrays =~= Seq::<SaneModel>::empty());
    } else {
        let others = arrays.skip(1);
        assert forall|i: int| 0 <= i < others.len() implies sane_round_trips(
            #[trigger] others[i],
        ) by {
            assert(others[i] == arrays[i + 1]);
        }
        lemma_read_written_sane_arrays_dyn(others);
        assert(sane_round_trips(arrays[0]));
        lemma_read_written_sane_dyn(arrays[0], spec_write_sane_arrays_dyn(others).bytes);
        assert(seq![arrays[0]] + others =~= arrays);
    }
}

/// Feeding a reader on demand agrees with reading from memory: no more
/// bytes are asked for exactly when the record is whole, and a record that is
/// refused is refused by the reading of its header for the same reason.
pub proof fn lemma_next_read(record: Seq<u8>)
    requires
        record.len() <= usize::MAX,
    ensures
        spec_next_read(record) matches Ok(n) ==> (n == 0 <==> is_whole_record(record)),
        spec_next_read(record) matches Err(e) ==> spec_read_header(record).result is Err
            && spec_read_header(record).result->Err_0 == e,
{
    if record.len() >= 8 && record.take(4) == magic() {
        let after_magic = record.skip(4);
        assert(after_magic.take(4) =~= record.subrange(4, 8));
        lemma_le_value_bound(record.subrange(4, 8));
        lemma_pow256_values();
    }
}

} // verus!
