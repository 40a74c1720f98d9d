//! The n-dimensional array that the codec reads and writes: a shape and the
//! elements in row-major order.
use vstd::prelude::*;

verus! {

/// Why a shape and a number of elements do not make an array.
#[derive(Debug, Clone, Copy, PartialEq, Eq, Structural)]
pub enum ShapeErrorKind {
    /// The shape asks for another number of elements than there are.
    IncompatibleShape,
    /// The shape asks for more elements than there are.
    OutOfBounds,
    /// The number of elements that the shape asks for is beyond `isize::MAX`.
    Overflow,
}

/// The number of elements of an array of the given shape: the product of
/// the axis lengths, 1 for rank 0.
pub open spec fn shape_size(shape: Seq<usize>) -> nat
    decreases shape.len(),
{
    if shape.len() == 0 {
        1
    } else {
        shape_size(shape.drop_last()) * (shape.last() as nat)
    }
}

/// The product of the axis lengths that are not zero.
pub open spec fn shape_size_nonzero(shape: Seq<usize>) -> nat
    decreases shape.len(),
{
    if shape.len() == 0 {
        1
    } else if shape.last() == 0 {
        shape_size_nonzero(shape.drop_last())
    } else {
        shape_size_nonzero(shape.drop_last()) * (shape.last() as nat)
    }
}

/// Why `len` elements cannot be laid out in the given shape, or `None`
/// where they can.
pub open spec fn shape_error(shape: Seq<usize>, len: nat) -> Option<ShapeErrorKind> {
    if shape_size_nonzero(shape) > isize::MAX {
        Some(ShapeErrorKind::Overflow)
    } else if shape_size(shape) > len {
        Some(ShapeErrorKind::OutOfBounds)
    } else if shape_size(shape) != len {
        Some(ShapeErrorKind::IncompatibleShape)
    } else {
        None
    }
}

/// Whether `len` elements fill the given shape exactly.
pub open spec fn shape_fits(shape: Seq<usize>, len: nat) -> bool {
    shape_error(shape, len) is None
}

/// Calls `ndarray::ArrayD::from_shape_vec` on `IxDyn(shape)` and `elems`, and
/// takes the elements out of the array again with `into_raw_vec`.
///
/// Trusted: ndarray refuses the pair with `Overflow` where the product of the
/// non-zero axis lengths is beyond `isize::MAX`, else with `OutOfBounds` where
/// the shape's size is above the number of elements, else with
/// `IncompatibleShape` where the two differ; an array that it made in
/// row-major order holds the elements as they were given.
#[verifier::external_body]
fn ndarray_from_shape_vec<A>(shape: &Vec<usize>, elems: Vec<A>) -> (r: Result<Vec<A>, ShapeErrorKind>)
    ensures
        r is Ok <==> shape_fits(shape@, elems@.len()),
        r matches Ok(v) ==> v@ == elems@,
        r matches Err(kind) ==> shape_error(shape@, elems@.len()) == Some(kind),
{
    match ndarray::ArrayD::from_shape_vec(ndarray::IxDyn(shape), elems) {
        Ok(array) => Ok(array.into_raw_vec()),
        Err(e) => Err(
            match e.kind() {
                ndarray::ErrorKind::Overflow => ShapeErrorKind::Overflow,
                ndarray::ErrorKind::OutOfBounds => ShapeErrorKind::OutOfBounds,
                _ => ShapeErrorKind::IncompatibleShape,
            },
        ),
    }
}

/// What an [`NdArray`] stands for: its shape and its elements in row-major
/// order.
pub struct ArrayModel<A> {
    pub shape: Seq<usize>,
    pub elems: Seq<A>,
}

impl<A> ArrayModel<A> {
    /// Whether the elements fill the shape exactly.
    pub open spec fn wf(self) -> bool {
        shape_fits(self.shape, self.elems.len())
    }
}

/// An n-dimensional array: the lengths of its axes and its elements in
/// row-major order. The shape always fits the number of elements.
#[derive(Debug, PartialEq, Eq)]
pub struct NdArray<A> {
    shape: Vec<usize>,
    elems: Vec<A>,
}

impl<A> View for NdArray<A> {
    type V = ArrayModel<A>;

    closed spec fn view(&self) -> ArrayModel<A> {
        ArrayModel { shape: self.shape@, elems: self.elems@ }
    }
}

impl<A> NdArray<A> {
    /// Every array is well formed: its elements fill its shape exactly.
    #[verifier::type_invariant]
    pub open spec fn wf(&self) -> bool {
        self@.wf()
    }

    /// Makes an array of the given shape from its elements in row-major
    /// order, or says why the two do not fit.
    pub fn from_shape_vec(shape: Vec<usize>, elems: Vec<A>) -> (r: Result<Self, ShapeErrorKind>)
        ensures
            r is Ok <==> shape_fits(shape@, elems@.len()),
            r matches Ok(array) ==> array@.shape == shape@ && array@.elems == elems@ && array.wf(),
            r matches Err(kind) ==> shape_error(shape@, elems@.len()) == Some(kind),
    {
        match ndarray_from_shape_vec(&shape, elems) {
            Ok(elems) => Ok(NdArray { shape, elems }),
            Err(kind) => Err(kind),
        }
    }

    /// The lengths of the axes.
    pub fn shape(&self) -> (r: &[usize])
        ensures
            r@ == self@.shape,
    {
        self.shape.as_slice()
    }

    /// The number of elements.
    pub fn len(&self) -> (r: usize)
        ensures
            r == self@.elems.len(),
            self.wf(),
    {
        proof {
            use_type_invariant(self);
        }
        self.elems.len()
    }

    /// The elements in row-major order.
    pub fn as_slice(&self) -> (r: &[A])
        ensures
            r@ == self@.elems,
    {
        self.elems.as_slice()
    }
}

impl<A: Clone> Clone for NdArray<A> {
    /// A copy with the same shape, whose elements are clones of this one's.
    fn clone(&self) -> (res: Self)
        ensures
            res@.shape == self@.shape,
            res@.elems.len() == self@.elems.len(),
            forall|i: int| 0 <= i < self@.elems.len() ==> cloned::<A>(self@.elems[i], #[trigger] res@.elems[i]),
    {
        proof {
            use_type_invariant(self);
        }
        let shape = self.shape.clone();
        let elems = self.elems.clone();
        assert(shape@ =~= self.shape@);
        NdArray { shape, elems }
    }
}

} // verus!
