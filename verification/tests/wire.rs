use sane_array::le::{le_decode, le_encode};
use sane_array::payload::{element_to_le, elements_from_le};
use sane_array::read::{parse_u32_size, parse_u64_size, read_array, read_array_with_shape, read_header};
use sane_array::write::{write_data, write_header};
use sane_array::{
    next_read, read_sane, read_sane_arrays, read_sane_arrays_dyn, read_sane_dyn, write_sane,
    write_sane_arrays, write_sane_arrays_dyn, write_sane_dyn, ByteStream, DataType, F32Bits,
    F64Bits, Header, NdArray, ParseError, ReadSane, Sane, ShapeErrorKind, WriteSane,
};

fn array<A>(shape: &[usize], elems: Vec<A>) -> NdArray<A> {
    NdArray::from_shape_vec(shape.to_vec(), elems).unwrap()
}

fn two_by_three() -> NdArray<i32> {
    array(&[2, 3], vec![1, 2, 3, 4, 5, 6])
}

/// The record of the 2x3 array of `i32` with the elements 1 to 6.
fn two_by_three_bytes() -> Vec<u8> {
    let mut bytes = vec![0x53, 0x41, 0x4E, 0x45];
    bytes.extend_from_slice(&[0x02, 0x00, 0x00, 0x00]);
    bytes.extend_from_slice(&[0x03, 0, 0, 0, 0, 0, 0, 0]);
    bytes.extend_from_slice(&[0x02, 0, 0, 0, 0, 0, 0, 0]);
    bytes.push(0x01);
    bytes.extend_from_slice(&[0x18, 0, 0, 0, 0, 0, 0, 0]);
    for value in 1i32..=6 {
        bytes.extend_from_slice(&value.to_le_bytes());
    }
    bytes
}

fn encode<A: WriteSane>(array: &NdArray<A>) -> Vec<u8> {
    let mut file = Vec::new();
    write_sane(&mut file, array).unwrap();
    file
}

#[test]
fn little_endian_bytes_of_numbers() {
    assert_eq!(le_encode(0x0102_0304, 4), vec![0x04, 0x03, 0x02, 0x01]);
    assert_eq!(le_encode(24, 8), vec![24, 0, 0, 0, 0, 0, 0, 0]);
    assert_eq!(le_encode(0x1234, 1), vec![0x34]);
    assert_eq!(le_encode(7, 0), Vec::<u8>::new());
    assert_eq!(le_encode(u64::MAX, 9), vec![255, 255, 255, 255, 255, 255, 255, 255, 0]);
    assert_eq!(le_encode(0xdead_beef_0bad_f00d, 8), 0xdead_beef_0bad_f00du64.to_le_bytes());
}

#[test]
fn numbers_of_little_endian_bytes() {
    let bytes = [0xaa, 0x04, 0x03, 0x02, 0x01, 0xbb];
    assert_eq!(le_decode(&bytes, 1, 4), 0x0102_0304);
    assert_eq!(le_decode(&bytes, 0, 1), 0xaa);
    assert_eq!(le_decode(&bytes, 3, 0), 0);
    assert_eq!(le_decode(&[0xff; 8], 0, 8), u64::MAX);
    let value = 0x0123_4567_89ab_cdefu64;
    assert_eq!(le_decode(&value.to_le_bytes(), 0, 8), value);
}

#[test]
fn sizes_of_header_fields() {
    assert_eq!(parse_u32_size([2, 0, 0, 0]), Ok(2));
    assert_eq!(parse_u32_size([0, 1, 0, 0]), Ok(256));
    assert_eq!(parse_u32_size([0xff; 4]), Ok(0xffff_ffff));
    assert_eq!(parse_u64_size([0x18, 0, 0, 0, 0, 0, 0, 0]), Ok(24));
    assert_eq!(parse_u64_size([0, 0, 0, 0, 1, 0, 0, 0]), Ok(1 << 32));
    let max = usize::MAX.to_le_bytes();
    let mut field = [0u8; 8];
    field[..max.len()].copy_from_slice(&max);
    assert_eq!(parse_u64_size(field), Ok(usize::MAX));
}

#[test]
fn bytes_of_elements() {
    assert_eq!(<i32 as WriteSane>::to_le_bytes(-6), vec![0xfa, 0xff, 0xff, 0xff]);
    assert_eq!(<i32 as WriteSane>::to_le_bytes(1), vec![1, 0, 0, 0]);
    assert_eq!(<u32 as WriteSane>::to_le_bytes(0x0102_0304), vec![4, 3, 2, 1]);
    assert_eq!(<i64 as WriteSane>::to_le_bytes(-2), (-2i64).to_le_bytes());
    assert_eq!(<u64 as WriteSane>::to_le_bytes(u64::MAX), vec![0xff; 8]);
    assert_eq!(<i8 as WriteSane>::to_le_bytes(-128), vec![0x80]);
    assert_eq!(<u8 as WriteSane>::to_le_bytes(250), vec![250]);
    assert_eq!(F32Bits::to_le_bytes(F32Bits(1.0f32.to_bits())), 1.0f32.to_le_bytes());
    assert_eq!(F64Bits::to_le_bytes(F64Bits((-4.5f64).to_bits())), (-4.5f64).to_le_bytes());
    assert_eq!(element_to_le(-1i32), vec![0xff; 4]);
}

#[test]
fn elements_of_bytes() {
    assert_eq!(<i32 as ReadSane>::from_le_bytes(vec![0xfa, 0xff, 0xff, 0xff, 1, 0, 0, 0]), vec![-6, 1]);
    assert_eq!(<u32 as ReadSane>::from_le_bytes(vec![4, 3, 2, 1]), vec![0x0102_0304]);
    assert_eq!(<i64 as ReadSane>::from_le_bytes((-2i64).to_le_bytes().to_vec()), vec![-2]);
    assert_eq!(<u64 as ReadSane>::from_le_bytes(vec![0xff; 8]), vec![u64::MAX]);
    assert_eq!(<i8 as ReadSane>::from_le_bytes(vec![0x80, 0x7f, 0xff]), vec![-128, 127, -1]);
    assert_eq!(<u8 as ReadSane>::from_le_bytes(vec![1, 2, 250]), vec![1, 2, 250]);
    assert_eq!(
        F32Bits::from_le_bytes(2.5f32.to_le_bytes().to_vec()),
        vec![F32Bits(2.5f32.to_bits())]
    );
    assert_eq!(
        F64Bits::from_le_bytes(f64::NAN.to_le_bytes().to_vec()),
        vec![F64Bits(f64::NAN.to_bits())]
    );
    assert_eq!(elements_from_le::<i32>(&[]), Vec::<i32>::new());
}

#[test]
fn bytes_that_make_no_element_are_dropped() {
    assert_eq!(<i32 as ReadSane>::from_le_bytes(vec![1, 0, 0, 0, 2, 0, 0]), vec![1]);
    assert_eq!(<u64 as ReadSane>::from_le_bytes(vec![1, 0, 0, 0, 0, 0, 0]), Vec::<u64>::new());
    assert_eq!(elements_from_le::<u32>(&[7, 0, 0, 0, 9]), vec![7]);
}

#[test]
fn concrete_record_is_written_byte_for_byte() {
    assert_eq!(encode(&two_by_three()), two_by_three_bytes());
    assert_eq!(two_by_three_bytes().len(), 4 + 4 + 16 + 1 + 8 + 24);
}

#[test]
fn header_and_data_are_written_apart() {
    let mut file = vec![0xee];
    write_header(&mut file, &two_by_three()).unwrap();
    assert_eq!(file[0], 0xee);
    assert_eq!(&file[1..], &two_by_three_bytes()[..33]);
    let mut data = Vec::new();
    write_data(&mut data, &two_by_three()).unwrap();
    assert_eq!(&data[..], &two_by_three_bytes()[33..]);
}

#[test]
fn writing_appends_to_what_is_there() {
    let mut file = vec![9, 9];
    write_sane(&mut file, &two_by_three()).unwrap();
    assert_eq!(&file[..2], &[9, 9]);
    assert_eq!(&file[2..], &two_by_three_bytes()[..]);
}

#[test]
fn axis_lengths_are_stored_last_axis_first() {
    let bytes = encode(&array(&[1, 2, 3], vec![0u8; 6]));
    assert_eq!(&bytes[4..8], &[3, 0, 0, 0]);
    assert_eq!(bytes[8], 3);
    assert_eq!(bytes[16], 2);
    assert_eq!(bytes[24], 1);
    assert_eq!(bytes[32], 7);
    assert_eq!(bytes[33], 6);
    assert_eq!(bytes.len(), 8 + 24 + 9 + 6);
}

#[test]
fn header_is_read_field_by_field() {
    let bytes = two_by_three_bytes();
    let mut file = ByteStream::new(&bytes);
    let header = read_header(&mut file).unwrap();
    assert_eq!(
        header,
        Header { shape: vec![2, 3], data_type: DataType::I32, data_length: 24 }
    );
    assert_eq!(file.remaining(), 24);
}

#[test]
fn truncated_header_is_refused() {
    let bytes = two_by_three_bytes();
    let mut file = ByteStream::new(&bytes[..10]);
    assert_eq!(read_sane_dyn(&mut file), Err(ParseError::TruncatedHeader));
    let mut file = ByteStream::new(&bytes[..10]);
    assert_eq!(read_sane::<i32>(&mut file, Some(2)), Err(ParseError::TruncatedHeader));
    assert_eq!(file.remaining(), 0);
}

#[test]
fn header_cut_anywhere_is_truncated() {
    let bytes = two_by_three_bytes();
    for cut in 1..33 {
        let mut file = ByteStream::new(&bytes[..cut]);
        assert_eq!(read_header(&mut file), Err(ParseError::TruncatedHeader), "cut at {}", cut);
        assert_eq!(file.remaining(), 0);
    }
}

#[test]
fn data_cut_anywhere_is_truncated() {
    let bytes = two_by_three_bytes();
    for cut in 33..bytes.len() {
        let mut file = ByteStream::new(&bytes[..cut]);
        assert_eq!(read_sane_dyn(&mut file), Err(ParseError::TruncatedPayload), "cut at {}", cut);
        assert_eq!(file.remaining(), 0);
    }
}

#[test]
fn end_of_stream_at_a_record_border_is_eof() {
    let mut file = ByteStream::new(&[]);
    assert_eq!(read_header(&mut file), Err(ParseError::EOF));
    assert_eq!(read_sane_dyn(&mut file), Err(ParseError::EOF));
    assert_eq!(read_sane::<u8>(&mut file, None), Err(ParseError::EOF));
}

#[test]
fn part_of_the_magic_bytes_is_no_eof() {
    for bytes in [&b"S"[..], &b"SA"[..], &b"SAN"[..], &b"xyz"[..]] {
        let mut file = ByteStream::new(bytes);
        assert_eq!(read_sane_dyn(&mut file), Err(ParseError::TruncatedHeader));
        let mut file = ByteStream::new(bytes);
        assert_eq!(read_sane_arrays_dyn(&mut file), Err(ParseError::TruncatedHeader));
    }
}

#[test]
fn other_magic_bytes_are_refused() {
    let mut bytes = two_by_three_bytes();
    bytes[3] = b'X';
    let mut file = ByteStream::new(&bytes);
    assert_eq!(read_sane_dyn(&mut file), Err(ParseError::NotSANE));
    assert_eq!(file.remaining(), bytes.len() - 4);
    let mut file = ByteStream::new(b"sane");
    assert_eq!(read_header(&mut file), Err(ParseError::NotSANE));
}

#[test]
fn unknown_element_type_is_refused() {
    for code in [8u8, 9, 255] {
        let mut bytes = two_by_three_bytes();
        bytes[24] = code;
        let mut file = ByteStream::new(&bytes);
        assert_eq!(read_sane_dyn(&mut file), Err(ParseError::InvalidDataType(code)));
        assert_eq!(file.remaining(), bytes.len() - 25);
    }
}

#[test]
fn wrong_type_guard() {
    let bytes = encode(&two_by_three());
    let mut file = ByteStream::new(&bytes);
    assert_eq!(
        read_sane::<F32Bits>(&mut file, Some(2)),
        Err(ParseError::WrongDataType(DataType::I32))
    );
    let mut file = ByteStream::new(&bytes);
    assert_eq!(read_sane::<u32>(&mut file, None), Err(ParseError::WrongDataType(DataType::I32)));
}

#[test]
fn wrong_type_is_found_before_the_data_is_missed() {
    let bytes = encode(&two_by_three());
    let mut file = ByteStream::new(&bytes[..40]);
    assert_eq!(read_sane::<i64>(&mut file, None), Err(ParseError::WrongDataType(DataType::I32)));
    assert_eq!(file.remaining(), 7);
    let mut file = ByteStream::new(&bytes[..40]);
    assert_eq!(read_sane::<i32>(&mut file, None), Err(ParseError::TruncatedPayload));
}

#[test]
fn rank_mismatch() {
    let bytes = encode(&two_by_three());
    for rank in [0usize, 1, 3, 4] {
        let mut file = ByteStream::new(&bytes);
        assert_eq!(
            read_sane::<i32>(&mut file, Some(rank)),
            Err(ParseError::ShapeError(ShapeErrorKind::IncompatibleShape))
        );
        assert_eq!(file.remaining(), 0);
    }
    let mut file = ByteStream::new(&bytes);
    assert_eq!(read_sane::<i32>(&mut file, None), Ok(two_by_three()));
}

#[test]
fn data_that_does_not_fill_the_shape_is_refused() {
    // One element short: the header says 20 bytes for a 2x3 array.
    let mut bytes = two_by_three_bytes();
    bytes[25] = 20;
    bytes.truncate(33 + 20);
    let mut file = ByteStream::new(&bytes);
    assert_eq!(
        read_sane_dyn(&mut file),
        Err(ParseError::ShapeError(ShapeErrorKind::OutOfBounds))
    );
    // One element more: 28 bytes for a 2x3 array.
    let mut bytes = two_by_three_bytes();
    bytes[25] = 28;
    bytes.extend_from_slice(&[7, 0, 0, 0]);
    let mut file = ByteStream::new(&bytes);
    assert_eq!(
        read_sane::<i32>(&mut file, Some(2)),
        Err(ParseError::ShapeError(ShapeErrorKind::IncompatibleShape))
    );
}

#[test]
fn data_bytes_left_over_are_dropped() {
    let mut bytes = two_by_three_bytes();
    bytes[25] = 27;
    bytes.extend_from_slice(&[7, 7, 7]);
    bytes.extend_from_slice(&encode(&array(&[1], vec![5u8])));
    let mut file = ByteStream::new(&bytes);
    assert_eq!(read_sane::<i32>(&mut file, Some(2)), Ok(two_by_three()));
    assert_eq!(read_sane::<u8>(&mut file, Some(1)), Ok(array(&[1], vec![5u8])));
    assert_eq!(file.remaining(), 0);
}

#[test]
fn shapes_that_overflow_are_refused() {
    let mut bytes = vec![0x53, 0x41, 0x4E, 0x45, 2, 0, 0, 0];
    let huge = (usize::MAX as u64).to_le_bytes();
    bytes.extend_from_slice(&huge);
    bytes.extend_from_slice(&huge);
    bytes.push(7);
    bytes.extend_from_slice(&[0; 8]);
    let mut file = ByteStream::new(&bytes);
    assert_eq!(read_sane_dyn(&mut file), Err(ParseError::ShapeError(ShapeErrorKind::Overflow)));
}

#[test]
fn arrays_are_made_of_shape_and_elements() {
    let made = NdArray::from_shape_vec(vec![2, 3], vec![1u8, 2, 3, 4, 5, 6]).unwrap();
    assert_eq!(made.shape(), &[2, 3]);
    assert_eq!(made.len(), 6);
    assert_eq!(made.as_slice(), &[1, 2, 3, 4, 5, 6]);
    assert_eq!(made.clone(), made);
    assert_eq!(
        NdArray::from_shape_vec(vec![2, 3], vec![1u8, 2, 3, 4, 5]),
        Err(ShapeErrorKind::OutOfBounds)
    );
    assert_eq!(
        NdArray::from_shape_vec(vec![2, 3], vec![0u8; 7]),
        Err(ShapeErrorKind::IncompatibleShape)
    );
    assert_eq!(
        NdArray::from_shape_vec(vec![usize::MAX, 2], Vec::<u8>::new()),
        Err(ShapeErrorKind::Overflow)
    );
    assert_eq!(
        NdArray::from_shape_vec(vec![0, usize::MAX, 2], Vec::<u8>::new()),
        Err(ShapeErrorKind::Overflow)
    );
    assert_eq!(NdArray::from_shape_vec(vec![], vec![1u8, 2]), Err(ShapeErrorKind::IncompatibleShape));
    assert_eq!(NdArray::from_shape_vec(vec![], Vec::<u8>::new()), Err(ShapeErrorKind::OutOfBounds));
}

#[test]
fn arrays_agree_with_ndarray() {
    let shapes: Vec<Vec<usize>> = vec![
        vec![],
        vec![0],
        vec![1],
        vec![4],
        vec![2, 2],
        vec![2, 3],
        vec![0, 7],
        vec![3, 1, 2],
        vec![usize::MAX],
        vec![usize::MAX / 2, 3],
        vec![0, usize::MAX, usize::MAX],
    ];
    for shape in shapes {
        for len in 0usize..8 {
            let ours = NdArray::from_shape_vec(shape.clone(), vec![0u8; len]);
            let theirs = ndarray::ArrayD::from_shape_vec(ndarray::IxDyn(&shape), vec![0u8; len]);
            match (ours, theirs) {
                (Ok(array), Ok(other)) => {
                    assert_eq!(array.shape(), other.shape());
                    assert_eq!(array.len(), other.len());
                }
                (Err(kind), Err(error)) => {
                    let same = match (kind, error.kind()) {
                        (ShapeErrorKind::Overflow, ndarray::ErrorKind::Overflow) => true,
                        (ShapeErrorKind::OutOfBounds, ndarray::ErrorKind::OutOfBounds) => true,
                        (
                            ShapeErrorKind::IncompatibleShape,
                            ndarray::ErrorKind::IncompatibleShape,
                        ) => true,
                        _ => false,
                    };
                    assert!(same, "{:?} and {:?}", kind, error);
                }
                _ => panic!("one made an array of {:?} and {} elements", shape, len),
            }
        }
    }
}

#[test]
fn arrays_are_read_from_shape_and_data() {
    assert_eq!(read_array::<i32>(vec![2], vec![1, 0, 0, 0, 0xff, 0xff, 0xff, 0xff]), Ok(array(&[2], vec![1, -1])));
    assert_eq!(
        read_array::<i32>(vec![3], vec![0; 8]),
        Err(ParseError::ShapeError(ShapeErrorKind::OutOfBounds))
    );
    assert_eq!(read_array_with_shape::<u8>(vec![2, 1], vec![8, 9], Some(2)), Ok(array(&[2, 1], vec![8, 9])));
    assert_eq!(read_array_with_shape::<u8>(vec![2, 1], vec![8, 9], None), Ok(array(&[2, 1], vec![8, 9])));
    assert_eq!(
        read_array_with_shape::<u8>(vec![2, 1], vec![8, 9], Some(1)),
        Err(ParseError::ShapeError(ShapeErrorKind::IncompatibleShape))
    );
    assert_eq!(
        read_array_with_shape::<u8>(vec![2, 1], vec![8], Some(1)),
        Err(ParseError::ShapeError(ShapeErrorKind::OutOfBounds))
    );
}

#[test]
fn rank_zero_round_trips() {
    let scalar = array(&[], vec![F32Bits(1.0f32.to_bits())]);
    let bytes = encode(&scalar);
    assert_eq!(bytes.len(), 4 + 4 + 1 + 8 + 4);
    assert_eq!(&bytes[4..8], &[0, 0, 0, 0]);
    let mut file = ByteStream::new(&bytes);
    assert_eq!(read_sane::<F32Bits>(&mut file, Some(0)), Ok(scalar));
    let mut file = ByteStream::new(&bytes);
    assert_eq!(
        read_sane_dyn(&mut file),
        Ok(Sane::ArrayF32(array(&[], vec![F32Bits(1.0f32.to_bits())])))
    );
}

#[test]
fn empty_axes_round_trip() {
    for shape in [vec![0usize], vec![0, 3], vec![2, 0, 5], vec![4, 0]] {
        let empty = array(&shape, Vec::<i64>::new());
        let bytes = encode(&empty);
        assert_eq!(bytes.len(), 17 + 8 * shape.len());
        let mut file = ByteStream::new(&bytes);
        assert_eq!(read_sane::<i64>(&mut file, Some(shape.len())), Ok(empty));
        let mut file = ByteStream::new(&bytes);
        assert_eq!(read_sane_dyn(&mut file), Ok(Sane::ArrayI64(array(&shape, Vec::new()))));
    }
}

#[test]
fn every_element_type_round_trips() {
    let all = vec![
        Sane::ArrayF32(array(&[2], vec![F32Bits(f32::MIN.to_bits()), F32Bits(f32::NAN.to_bits())])),
        Sane::ArrayI32(array(&[3], vec![i32::MIN, 0, i32::MAX])),
        Sane::ArrayU32(array(&[2, 1], vec![0, u32::MAX])),
        Sane::ArrayF64(array(&[1, 2], vec![F64Bits(0.1f64.to_bits()), F64Bits((-0.0f64).to_bits())])),
        Sane::ArrayI64(array(&[3], vec![i64::MIN, -1, i64::MAX])),
        Sane::ArrayU64(array(&[1, 1, 2], vec![0, u64::MAX])),
        Sane::ArrayI8(array(&[4], vec![i8::MIN, -1, 0, i8::MAX])),
        Sane::ArrayU8(array(&[2, 2], vec![0, 1, 254, 255])),
    ];
    for (code, sane) in all.iter().enumerate() {
        let mut bytes = Vec::new();
        write_sane_dyn(&mut bytes, sane).unwrap();
        assert_eq!(bytes[bytes.len() - 9 - data_len(sane)] as usize, code);
        let mut file = ByteStream::new(&bytes);
        assert_eq!(&read_sane_dyn(&mut file).unwrap(), sane);
        assert_eq!(file.remaining(), 0);
    }
    let mut bytes = Vec::new();
    write_sane_arrays_dyn(&mut bytes, &all).unwrap();
    let mut file = ByteStream::new(&bytes);
    assert_eq!(read_sane_arrays_dyn(&mut file), Ok(all));
}

fn data_len(sane: &Sane) -> usize {
    match sane {
        Sane::ArrayF32(array) => 4 * array.len(),
        Sane::ArrayI32(array) => 4 * array.len(),
        Sane::ArrayU32(array) => 4 * array.len(),
        Sane::ArrayF64(array) => 8 * array.len(),
        Sane::ArrayI64(array) => 8 * array.len(),
        Sane::ArrayU64(array) => 8 * array.len(),
        Sane::ArrayI8(array) => array.len(),
        Sane::ArrayU8(array) => array.len(),
    }
}

#[test]
fn streaming_termination() {
    let a = Sane::ArrayI32(two_by_three());
    let b = Sane::ArrayU8(array(&[3], vec![7, 8, 9]));
    let mut bytes = Vec::new();
    write_sane_arrays_dyn(&mut bytes, &[a, b]).unwrap();
    let mut file = ByteStream::new(&bytes);
    let parsed = read_sane_arrays_dyn(&mut file).unwrap();
    assert_eq!(
        parsed,
        vec![Sane::ArrayI32(two_by_three()), Sane::ArrayU8(array(&[3], vec![7, 8, 9]))]
    );
    assert_eq!(file.remaining(), 0);
    assert_eq!(read_sane_arrays_dyn(&mut file), Ok(vec![]));
    assert_eq!(read_sane_dyn(&mut file), Err(ParseError::EOF));
}

#[test]
fn records_follow_each_other_with_nothing_in_between() {
    let first = two_by_three();
    let second = array(&[1], vec![9i32]);
    let mut bytes = Vec::new();
    write_sane_arrays(&mut bytes, &[two_by_three(), array(&[1], vec![9i32])]).unwrap();
    let mut expected = encode(&first);
    expected.extend_from_slice(&encode(&second));
    assert_eq!(bytes, expected);
    let mut nothing = Vec::new();
    write_sane_arrays::<i32>(&mut nothing, &[]).unwrap();
    assert_eq!(nothing, Vec::<u8>::new());
}

#[test]
fn a_failure_drops_the_arrays_before_it() {
    let mut bytes = encode(&two_by_three());
    bytes.extend_from_slice(&encode(&two_by_three())[..40]);
    let mut file = ByteStream::new(&bytes);
    assert_eq!(read_sane_arrays::<i32>(&mut file, Some(2)), Err(ParseError::TruncatedPayload));
    let mut bytes = encode(&two_by_three());
    bytes.extend_from_slice(&encode(&array(&[1], vec![1u8])));
    let mut file = ByteStream::new(&bytes);
    assert_eq!(
        read_sane_arrays::<i32>(&mut file, None),
        Err(ParseError::WrongDataType(DataType::U8))
    );
    let mut file = ByteStream::new(&bytes);
    assert_eq!(
        read_sane_arrays_dyn(&mut file),
        Ok(vec![Sane::ArrayI32(two_by_three()), Sane::ArrayU8(array(&[1], vec![1u8]))])
    );
}

#[test]
fn reading_by_hand() {
    let bytes = encode(&two_by_three());
    let mut file = ByteStream::new(&bytes);
    assert_eq!(file.remaining(), 57);
    assert_eq!(file.read_exact(4), Some(b"SANE".to_vec()));
    assert_eq!(file.remaining(), 53);
    assert_eq!(file.read_exact(54), None);
    assert_eq!(file.remaining(), 0);
    let mut file = ByteStream::new(&bytes);
    file.skip_to_end();
    assert_eq!(file.read_exact(0), Some(vec![]));
    assert_eq!(file.read_exact(1), None);
}

#[test]
fn a_record_is_asked_for_in_four_parts() {
    let bytes = two_by_three_bytes();
    assert_eq!(next_read(&[]), Ok(4));
    assert_eq!(next_read(&bytes[..1]), Ok(3));
    assert_eq!(next_read(&bytes[..4]), Ok(4));
    assert_eq!(next_read(&bytes[..6]), Ok(2));
    assert_eq!(next_read(&bytes[..8]), Ok(25));
    assert_eq!(next_read(&bytes[..20]), Ok(13));
    assert_eq!(next_read(&bytes[..33]), Ok(24));
    assert_eq!(next_read(&bytes[..50]), Ok(7));
    assert_eq!(next_read(&bytes), Ok(0));
    assert_eq!(next_read(b"SANX"), Err(ParseError::NotSANE));
    let mut bad = bytes.clone();
    bad[24] = 8;
    assert_eq!(next_read(&bad[..33]), Err(ParseError::InvalidDataType(8)));
    assert_eq!(next_read(&bad[..32]), Ok(1));
}

#[test]
fn a_record_taken_in_parts_is_read_like_the_whole() {
    let mut source = encode(&two_by_three());
    source.extend_from_slice(&encode(&array(&[2], vec![1u64, 2])));
    let mut taken = 0;
    let mut records = Vec::new();
    while taken < source.len() {
        let mut record: Vec<u8> = Vec::new();
        loop {
            let wanted = next_read(&record).unwrap();
            if wanted == 0 {
                break;
            }
            record.extend_from_slice(&source[taken..taken + wanted]);
            taken += wanted;
        }
        let mut file = ByteStream::new(&record);
        records.push(read_sane_dyn(&mut file).unwrap());
        assert_eq!(file.remaining(), 0);
    }
    assert_eq!(
        records,
        vec![Sane::ArrayI32(two_by_three()), Sane::ArrayU64(array(&[2], vec![1u64, 2]))]
    );
}
