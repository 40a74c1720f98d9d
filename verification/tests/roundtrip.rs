use sane_array::{
    read_sane, read_sane_arrays, read_sane_arrays_dyn, read_sane_dyn, write_sane,
    write_sane_arrays, write_sane_arrays_dyn, ByteStream, F32Bits, F64Bits, NdArray, ParseError,
    Sane,
};

fn array2<A>(rows: usize, cols: usize, elems: Vec<A>) -> NdArray<A> {
    NdArray::from_shape_vec(vec![rows, cols], elems).unwrap()
}

fn f32s(values: &[f32]) -> Vec<F32Bits> {
    values.iter().map(|v| F32Bits(v.to_bits())).collect()
}

fn f64s(values: &[f64]) -> Vec<F64Bits> {
    values.iter().map(|v| F64Bits(v.to_bits())).collect()
}

#[test]
fn roundtrip() {
    let arr = array2(2, 3, vec![1, 2, 3, 4, 5, 6]);
    let mut file = Vec::new();
    write_sane(&mut file, &arr).unwrap();
    let mut file = ByteStream::new(&file);
    let parsed = read_sane_dyn(&mut file).unwrap();
    match parsed {
        Sane::ArrayI32(arr2) => assert_eq!(arr, arr2),
        _ => assert!(false),
    }
}

#[test]
fn roundtrip_typed() {
    let arr = array2(2, 3, vec![1, 2, 3, 4, 5, 6]);
    let mut file = Vec::new();
    write_sane(&mut file, &arr).unwrap();
    let mut file = ByteStream::new(&file);
    let arr2: NdArray<i32> = read_sane(&mut file, Some(2)).unwrap();
    assert_eq!(arr, arr2)
}

#[test]
fn roundtrip_typed_wrong_shape() {
    // This array is rank 2
    let arr = array2(2, 3, vec![1, 2, 3, 4, 5, 6]);
    let mut file = Vec::new();
    write_sane(&mut file, &arr).unwrap();
    let mut file = ByteStream::new(&file);
    // Parsing as rank 3 should fail with a ShapeError
    let result: Result<NdArray<i32>, _> = read_sane(&mut file, Some(3));
    match result {
        Err(ParseError::ShapeError(_)) => assert!(true),
        _ => assert!(false),
    }
}

#[test]
fn roundtrip_arrays() {
    let arr = array2(2, 3, vec![1, 2, 3, 4, 5, 6]);
    let arr2 = array2(3, 2, vec![7, 8, 9, 10, 11, 12]);
    let mut file = Vec::new();
    let arrs = [arr, arr2];
    write_sane_arrays(&mut file, &arrs).unwrap();
    let mut file = ByteStream::new(&file);
    let parsed: Vec<NdArray<i32>> = read_sane_arrays(&mut file, Some(2)).unwrap();
    assert_eq!(parsed, arrs);
}

#[test]
fn roundtrip_hetrogenous_types() {
    let arrs = vec![
        Sane::ArrayI32(array2(2, 3, vec![1, 2, 3, 4, 5, -6])),
        Sane::ArrayF32(array2(2, 2, f32s(&[1.0, 2.0, -4.0, 5.0]))),
        Sane::ArrayF64(array2(4, 1, f64s(&[1.0, 2.0, 3.0, 5.0]))),
        Sane::ArrayU8(array2(5, 1, vec![1, 2, 3, 5, 250])),
        Sane::ArrayI8(array2(5, 1, vec![1, -2, 3, 5, -128])),
    ];
    let mut file = Vec::new();
    write_sane_arrays_dyn(&mut file, &arrs).unwrap();
    let mut file = ByteStream::new(&file);
    let parsed: Vec<Sane> = read_sane_arrays_dyn(&mut file).unwrap();
    assert_eq!(parsed, arrs)
}
