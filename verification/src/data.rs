//! The element types of SANE and their one-byte codes.
use crate::array::{ArrayModel, NdArray};
use crate::le::{lemma_pow256_values, pow256};
use vstd::prelude::*;

verus! {

/// The element types that a SANE array can have.
#[derive(Debug, Clone, Copy, PartialEq, Eq, Hash, Structural)]
pub enum DataType {
    F32,
    I32,
    U32,
    F64,
    I64,
    U64,
    I8,
    U8,
}

/// The element type that a code stands for, or the code itself where it
/// stands for none.
pub open spec fn spec_parse_data_type(code: u8) -> Result<DataType, u8> {
    match code {
        0 => Ok(DataType::F32),
        1 => Ok(DataType::I32),
        2 => Ok(DataType::U32),
        3 => Ok(DataType::F64),
        4 => Ok(DataType::I64),
        5 => Ok(DataType::U64),
        6 => Ok(DataType::I8),
        7 => Ok(DataType::U8),
        n => Err(n),
    }
}

/// The code under which an element type is written.
pub open spec fn spec_data_type_code(data_type: DataType) -> u8 {
    match data_type {
        DataType::F32 => 0,
        DataType::I32 => 1,
        DataType::U32 => 2,
        DataType::F64 => 3,
        DataType::I64 => 4,
        DataType::U64 => 5,
        DataType::I8 => 6,
        DataType::U8 => 7,
    }
}

/// Parse a SANE-encoded `u8` into the corresponding [`DataType`].
pub fn parse_data_type(code: u8) -> (r: Result<DataType, u8>)
    ensures
        r == spec_parse_data_type(code),
        r is Ok <==> code <= 7,
        r is Err ==> r == Err::<DataType, u8>(code),
{
    match code {
        0 => Ok(DataType::F32),
        1 => Ok(DataType::I32),
        2 => Ok(DataType::U32),
        3 => Ok(DataType::F64),
        4 => Ok(DataType::I64),
        5 => Ok(DataType::U64),
        6 => Ok(DataType::I8),
        7 => Ok(DataType::U8),
        n => Err(n),
    }
}

/// Get the `u8` SANE-encoding of a [`DataType`].
pub fn data_type_code(data_type: DataType) -> (code: u8)
    ensures
        code == spec_data_type_code(data_type),
        code <= 7,
{
    match data_type {
        DataType::F32 => 0,
        DataType::I32 => 1,
        DataType::U32 => 2,
        DataType::F64 => 3,
        DataType::I64 => 4,
        DataType::U64 => 5,
        DataType::I8 => 6,
        DataType::U8 => 7,
    }
}

/// Every element type is found again from its code.
pub proof fn lemma_parse_of_code(data_type: DataType)
    ensures
        spec_data_type_code(data_type) <= 7,
        spec_parse_data_type(spec_data_type_code(data_type)) == Ok::<DataType, u8>(data_type),
{
}

/// Every code up to 7 is found again from its element type, and every code
/// above 7 is refused and handed back.
pub proof fn lemma_code_of_parse(code: u8)
    ensures
        code <= 7 ==> spec_parse_data_type(code) is Ok && spec_data_type_code(
            spec_parse_data_type(code)->Ok_0,
        ) == code,
        code > 7 ==> spec_parse_data_type(code) == Err::<DataType, u8>(code),
{
}

impl DataType {
    /// The number of bytes that one element takes on the wire.
    pub open spec fn spec_size(self) -> nat {
        match self {
            DataType::F32 | DataType::I32 | DataType::U32 => 4,
            DataType::F64 | DataType::I64 | DataType::U64 => 8,
            DataType::I8 | DataType::U8 => 1,
        }
    }

    /// The number of bytes that one element takes on the wire.
    pub fn size(self) -> (r: usize)
        ensures
            r == self.spec_size(),
            r == 1 || r == 4 || r == 8,
    {
        match self {
            DataType::F32 | DataType::I32 | DataType::U32 => 4,
            DataType::F64 | DataType::I64 | DataType::U64 => 8,
            DataType::I8 | DataType::U8 => 1,
        }
    }
}

/// The four bytes that every record begins with: `SANE` in ASCII.
pub open spec fn magic() -> Seq<u8> {
    seq![0x53u8, 0x41u8, 0x4Eu8, 0x45u8]
}

/// The header of a SANE array, consisting of the shape, the data type and the
/// length of the data in number of bytes.
#[derive(Debug, PartialEq, Eq)]
pub struct Header {
    pub shape: Vec<usize>,
    pub data_type: DataType,
    pub data_length: usize,
}

/// What a [`Header`] stands for.
pub struct HeaderModel {
    pub shape: Seq<usize>,
    pub data_type: DataType,
    pub data_length: usize,
}

impl View for Header {
    type V = HeaderModel;

    open spec fn view(&self) -> HeaderModel {
        HeaderModel { shape: self.shape@, data_type: self.data_type, data_length: self.data_length }
    }
}

/// A type whose values can be the elements of a SANE array.
///
/// An element goes over the wire as an unsigned number of as many bytes as
/// its [`DataType`] takes: an unsigned integer as itself, a signed integer in
/// two's complement, a floating-point number as its IEEE 754 bit pattern.
pub trait SaneData: Copy + Sized {
    /// The element type under which values of this type are written.
    spec fn spec_data_type() -> DataType;

    /// The unsigned number that stands for the value on the wire.
    spec fn spec_bits(self) -> nat;

    /// The value that an unsigned number stands for.
    spec fn spec_from_bits(bits: nat) -> Self;

    /// The number of a value fits in the bytes of its element type.
    proof fn lemma_bits_bound(self)
        ensures
            self.spec_bits() < pow256(Self::spec_data_type().spec_size()),
    ;

    /// A value is found again from its number.
    proof fn lemma_from_bits_of_bits(self)
        ensures
            Self::spec_from_bits(self.spec_bits()) == self,
    ;

    /// A number that fits is found again from its value.
    proof fn lemma_bits_of_from_bits(bits: nat)
        requires
            bits < pow256(Self::spec_data_type().spec_size()),
        ensures
            Self::spec_from_bits(bits).spec_bits() == bits,
    ;

    /// The element type under which values of this type are written.
    fn sane_data_type() -> (r: DataType)
        ensures
            r == Self::spec_data_type(),
    ;

    /// The unsigned number that stands for the value on the wire.
    fn to_bits(self) -> (r: u64)
        ensures
            r == self.spec_bits(),
    ;

    /// The value that an unsigned number stands for.
    fn from_bits(bits: u64) -> (r: Self)
        requires
            bits < pow256(Self::spec_data_type().spec_size()),
        ensures
            r == Self::spec_from_bits(bits as nat),
    ;
}

/// A single-precision floating-point number, held by its IEEE 754 bit
/// pattern.
#[derive(Debug, Clone, Copy, PartialEq, Eq, Hash, Structural)]
pub struct F32Bits(pub u32);

/// A double-precision floating-point number, held by its IEEE 754 bit
/// pattern.
#[derive(Debug, Clone, Copy, PartialEq, Eq, Hash, Structural)]
pub struct F64Bits(pub u64);

/// A Sane array is an array with dynamic shape and elements of one of the
/// supported data types.
#[derive(Debug, PartialEq, Eq)]
pub enum Sane {
    ArrayF32(NdArray<F32Bits>),
    ArrayI32(NdArray<i32>),
    ArrayU32(NdArray<u32>),
    ArrayF64(NdArray<F64Bits>),
    ArrayI64(NdArray<i64>),
    ArrayU64(NdArray<u64>),
    ArrayI8(NdArray<i8>),
    ArrayU8(NdArray<u8>),
}

/// What a [`Sane`] array stands for.
pub enum SaneModel {
    ArrayF32(ArrayModel<F32Bits>),
    ArrayI32(ArrayModel<i32>),
    ArrayU32(ArrayModel<u32>),
    ArrayF64(ArrayModel<F64Bits>),
    ArrayI64(ArrayModel<i64>),
    ArrayU64(ArrayModel<u64>),
    ArrayI8(ArrayModel<i8>),
    ArrayU8(ArrayModel<u8>),
}

impl View for Sane {
    type V = SaneModel;

    open spec fn view(&self) -> SaneModel {
        match self {
            Sane::ArrayF32(array) => SaneModel::ArrayF32(array@),
            Sane::ArrayI32(array) => SaneModel::ArrayI32(array@),
            Sane::ArrayU32(array) => SaneModel::ArrayU32(array@),
            Sane::ArrayF64(array) => SaneModel::ArrayF64(array@),
            Sane::ArrayI64(array) => SaneModel::ArrayI64(array@),
            Sane::ArrayU64(array) => SaneModel::ArrayU64(array@),
            Sane::ArrayI8(array) => SaneModel::ArrayI8(array@),
            Sane::ArrayU8(array) => SaneModel::ArrayU8(array@),
        }
    }
}

impl Clone for Sane {
    /// A copy that holds the same array.
    fn clone(&self) -> (res: Self)
        ensures
            res@ == self@,
    {
        match self {
            Sane::ArrayF32(array) => {
                let copy = array.clone();
                assert(copy@.elems =~= array@.elems);
                Sane::ArrayF32(copy)
            },
            Sane::ArrayI32(array) => {
                let copy = array.clone();
                assert(copy@.elems =~= array@.elems);
                Sane::ArrayI32(copy)
            },
            Sane::ArrayU32(array) => {
                let copy = array.clone();
                assert(copy@.elems =~= array@.elems);
                Sane::ArrayU32(copy)
            },
            Sane::ArrayF64(array) => {
                let copy = array.clone();
                assert(copy@.elems =~= array@.elems);
                Sane::ArrayF64(copy)
            },
            Sane::ArrayI64(array) => {
                let copy = array.clone();
                assert(copy@.elems =~= array@.elems);
                Sane::ArrayI64(copy)
            },
            Sane::ArrayU64(array) => {
                let copy = array.clone();
                assert(copy@.elems =~= array@.elems);
                Sane::ArrayU64(copy)
            },
            Sane::ArrayI8(array) => {
                let copy = array.clone();
                assert(copy@.elems =~= array@.elems);
                Sane::ArrayI8(copy)
            },
            Sane::ArrayU8(array) => {
                let copy = array.clone();
                assert(copy@.elems =~= array@.elems);
                Sane::ArrayU8(copy)
            },
        }
    }
}

impl SaneModel {
    /// Whether the elements of the array fill its shape exactly.
    pub open spec fn wf(self) -> bool {
        match self {
            SaneModel::ArrayF32(array) => array.wf(),
            SaneModel::ArrayI32(array) => array.wf(),
            SaneModel::ArrayU32(array) => array.wf(),
            SaneModel::ArrayF64(array) => array.wf(),
            SaneModel::ArrayI64(array) => array.wf(),
            SaneModel::ArrayU64(array) => array.wf(),
            SaneModel::ArrayI8(array) => array.wf(),
            SaneModel::ArrayU8(array) => array.wf(),
        }
    }

    /// The element type of the array.
    pub open spec fn data_type(self) -> DataType {
        match self {
            SaneModel::ArrayF32(_) => DataType::F32,
            SaneModel::ArrayI32(_) => DataType::I32,
            SaneModel::ArrayU32(_) => DataType::U32,
            SaneModel::ArrayF64(_) => DataType::F64,
            SaneModel::ArrayI64(_) => DataType::I64,
            SaneModel::ArrayU64(_) => DataType::U64,
            SaneModel::ArrayI8(_) => DataType::I8,
            SaneModel::ArrayU8(_) => DataType::U8,
        }
    }
}

impl SaneData for F32Bits {
    open spec fn spec_data_type() -> DataType {
        DataType::F32
    }

    open spec fn spec_bits(self) -> nat {
        self.0 as nat
    }

    open spec fn spec_from_bits(bits: nat) -> Self {
        F32Bits(bits as u32)
    }

    proof fn lemma_bits_bound(self) {
        lemma_pow256_values();
    }

    proof fn lemma_from_bits_of_bits(self) {
    }

    proof fn lemma_bits_of_from_bits(bits: nat) {
        lemma_pow256_values();
    }

    fn sane_data_type() -> DataType {
        DataType::F32
    }

    fn to_bits(self) -> u64 {
        self.0 as u64
    }

    fn from_bits(bits: u64) -> Self {
        proof {
            lemma_pow256_values();
        }
        F32Bits(bits as u32)
    }
}

impl SaneData for i32 {
    open spec fn spec_data_type() -> DataType {
        DataType::I32
    }

    open spec fn spec_bits(self) -> nat {
        if self >= 0 {
            self as nat
        } else {
            (self + 0x1_0000_0000) as nat
        }
    }

    open spec fn spec_from_bits(bits: nat) -> Self {
        if bits < 0x8000_0000 {
            bits as i32
        } else {
            (bits - 0x1_0000_0000) as i32
        }
    }

    proof fn lemma_bits_bound(self) {
        lemma_pow256_values();
    }

    proof fn lemma_from_bits_of_bits(self) {
    }

    proof fn lemma_bits_of_from_bits(bits: nat) {
        lemma_pow256_values();
    }

    fn sane_data_type() -> DataType {
        DataType::I32
    }

    fn to_bits(self) -> u64 {
        if self >= 0 {
            self as u64
        } else {
            (self as i64 + 0x1_0000_0000) as u64
        }
    }

    fn from_bits(bits: u64) -> Self {
        proof {
            lemma_pow256_values();
        }
        if bits < 0x8000_0000 {
            bits as i32
        } else {
            (bits as i64 - 0x1_0000_0000) as i32
        }
    }
}

impl SaneData for u32 {
    open spec fn spec_data_type() -> DataType {
        DataType::U32
    }

    open spec fn spec_bits(self) -> nat {
        self as nat
    }

    open spec fn spec_from_bits(bits: nat) -> Self {
        bits as u32
    }

    proof fn lemma_bits_bound(self) {
        lemma_pow256_values();
    }

    proof fn lemma_from_bits_of_bits(self) {
    }

    proof fn lemma_bits_of_from_bits(bits: nat) {
        lemma_pow256_values();
    }

    fn sane_data_type() -> DataType {
        DataType::U32
    }

    fn to_bits(self) -> u64 {
        self as u64
    }

    fn from_bits(bits: u64) -> Self {
        proof {
            lemma_pow256_values();
        }
        bits as u32
    }
}

impl SaneData for F64Bits {
    open spec fn spec_data_type() -> DataType {
        DataType::F64
    }

    open spec fn spec_bits(self) -> nat {
        self.0 as nat
    }

    open spec fn spec_from_bits(bits: nat) -> Self {
        F64Bits(bits as u64)
    }

    proof fn lemma_bits_bound(self) {
        lemma_pow256_values();
    }

    proof fn lemma_from_bits_of_bits(self) {
    }

    proof fn lemma_bits_of_from_bits(bits: nat) {
        lemma_pow256_values();
    }

    fn sane_data_type() -> DataType {
        DataType::F64
    }

    fn to_bits(self) -> u64 {
        self.0 as u64
    }

    fn from_bits(bits: u64) -> Self {
        proof {
            lemma_pow256_values();
        }
        F64Bits(bits)
    }
}

impl SaneData for i64 {
    open spec fn spec_data_type() -> DataType {
        DataType::I64
    }

    open spec fn spec_bits(self) -> nat {
        if self >= 0 {
            self as nat
        } else {
            (self + 0x1_0000_0000_0000_0000) as nat
        }
    }

    open spec fn spec_from_bits(bits: nat) -> Self {
        if bits < 0x8000_0000_0000_0000 {
            bits as i64
        } else {
            (bits - 0x1_0000_0000_0000_0000) as i64
        }
    }

    proof fn lemma_bits_bound(self) {
        lemma_pow256_values();
    }

    proof fn lemma_from_bits_of_bits(self) {
    }

    proof fn lemma_bits_of_from_bits(bits: nat) {
        lemma_pow256_values();
    }

    fn sane_data_type() -> DataType {
        DataType::I64
    }

    fn to_bits(self) -> u64 {
        if self >= 0 {
            self as u64
        } else {
            (self - i64::MIN) as u64 + 0x8000_0000_0000_0000
        }
    }

    fn from_bits(bits: u64) -> Self {
        if bits < 0x8000_0000_0000_0000 {
            bits as i64
        } else {
            (bits - 0x8000_0000_0000_0000) as i64 + i64::MIN
        }
    }
}

impl SaneData for u64 {
    open spec fn spec_data_type() -> DataType {
        DataType::U64
    }

    open spec fn spec_bits(self) -> nat {
        self as nat
    }

    open spec fn spec_from_bits(bits: nat) -> Self {
        bits as u64
    }

    proof fn lemma_bits_bound(self) {
        lemma_pow256_values();
    }

    proof fn lemma_from_bits_of_bits(self) {
    }

    proof fn lemma_bits_of_from_bits(bits: nat) {
        lemma_pow256_values();
    }

    fn sane_data_type() -> DataType {
        DataType::U64
    }

    fn to_bits(self) -> u64 {
        self
    }

    fn from_bits(bits: u64) -> Self {
        proof {
            lemma_pow256_values();
        }
        bits
    }
}

impl SaneData for i8 {
    open spec fn spec_data_type() -> DataType {
        DataType::I8
    }

    open spec fn spec_bits(self) -> nat {
        if self >= 0 {
            self as nat
        } else {
            (self + 0x100) as nat
        }
    }

    open spec fn spec_from_bits(bits: nat) -> Self {
        if bits < 0x80 {
            bits as i8
        } else {
            (bits - 0x100) as i8
        }
    }

    proof fn lemma_bits_bound(self) {
        lemma_pow256_values();
    }

    proof fn lemma_from_bits_of_bits(self) {
    }

    proof fn lemma_bits_of_from_bits(bits: nat) {
        lemma_pow256_values();
    }

    fn sane_data_type() -> DataType {
        DataType::I8
    }

    fn to_bits(self) -> u64 {
        if self >= 0 {
            self as u64
        } else {
            (self as i64 + 0x100) as u64
        }
    }

    fn from_bits(bits: u64) -> Self {
        proof {
            lemma_pow256_values();
        }
        if bits < 0x80 {
            bits as i8
        } else {
            (bits as i64 - 0x100) as i8
        }
    }
}

impl SaneData for u8 {
    open spec fn spec_data_type() -> DataType {
        DataType::U8
    }

    open spec fn spec_bits(self) -> nat {
        self as nat
    }

    open spec fn spec_from_bits(bits: nat) -> Self {
        bits as u8
    }

    proof fn lemma_bits_bound(self) {
        lemma_pow256_values();
    }

    proof fn lemma_from_bits_of_bits(self) {
    }

    proof fn lemma_bits_of_from_bits(bits: nat) {
        lemma_pow256_values();
    }

    fn sane_data_type() -> DataType {
        DataType::U8
    }

    fn to_bits(self) -> u64 {
        self as u64
    }

    fn from_bits(bits: u64) -> Self {
        proof {
            lemma_pow256_values();
        }
        bits as u8
    }
}

} // verus!
