//! The data of an array on the wire: its elements in row-major order, each as
//! the little-endian bytes of its element type.
use crate::data::SaneData;
use crate::le::{
    le_bytes, le_decode, le_encode, le_value, lemma_le_bytes_len, lemma_le_bytes_of_value,
    lemma_le_value_bound, lemma_le_value_of_bytes,
};
use vstd::prelude::*;

verus! {

/// The bytes of one element.
pub open spec fn spec_elem_bytes<A: SaneData>(elem: A) -> Seq<u8> {
    le_bytes(elem.spec_bits(), A::spec_data_type().spec_size())
}

/// The element that bytes hold.
pub open spec fn spec_elem<A: SaneData>(bytes: Seq<u8>) -> A {
    A::spec_from_bits(le_value(bytes))
}

/// The bytes of a sequence of elements: those of each element, one after
/// the other.
pub open spec fn spec_data_bytes<A: SaneData>(elems: Seq<A>) -> Seq<u8>
    decreases elems.len(),
{
    if elems.len() == 0 {
        Seq::empty()
    } else {
        spec_data_bytes(elems.drop_last()) + spec_elem_bytes(elems.last())
    }
}

/// The `i`-th run of `size` bytes.
pub open spec fn spec_chunk(bytes: Seq<u8>, size: nat, i: int) -> Seq<u8> {
    bytes.subrange(i * size, i * size + size)
}

/// The elements that data bytes hold: one for each full run of as many
/// bytes as the element type takes. Bytes that are left over hold nothing.
pub open spec fn spec_elems<A: SaneData>(bytes: Seq<u8>) -> Seq<A> {
    let size = A::spec_data_type().spec_size();
    Seq::new(bytes.len() / size, |i: int| spec_elem::<A>(spec_chunk(bytes, size, i)))
}

/// An element takes as many bytes as its element type says, and is read
/// back from them.
pub proof fn lemma_elem_roundtrip<A: SaneData>(elem: A)
    ensures
        spec_elem_bytes(elem).len() == A::spec_data_type().spec_size(),
        spec_elem::<A>(spec_elem_bytes(elem)) == elem,
{
    let size = A::spec_data_type().spec_size();
    lemma_le_bytes_len(elem.spec_bits(), size);
    elem.lemma_bits_bound();
    lemma_le_value_of_bytes(elem.spec_bits(), size);
    elem.lemma_from_bits_of_bits();
}

/// As many bytes as an element takes hold one element, and are the bytes of
/// that element: no two byte strings stand for the same element.
pub proof fn lemma_bytes_roundtrip<A: SaneData>(bytes: Seq<u8>)
    requires
        bytes.len() == A::spec_data_type().spec_size(),
    ensures
        spec_elem_bytes(spec_elem::<A>(bytes)) == bytes,
{
    lemma_le_value_bound(bytes);
    A::lemma_bits_of_from_bits(le_value(bytes));
    lemma_le_bytes_of_value(bytes);
}

/// The data of `n` elements takes `n` times the size of one.
pub proof fn lemma_data_bytes_len<A: SaneData>(elems: Seq<A>)
    ensures
        spec_data_bytes(elems).len() == elems.len() * A::spec_data_type().spec_size(),
    decreases elems.len(),
{
    let size = A::spec_data_type().spec_size();
    if elems.len() > 0 {
        let front = elems.drop_last();
        lemma_data_bytes_len(front);
        lemma_elem_roundtrip(elems.last());
        assert(front.len() * size + size == elems.len() * size) by (nonlinear_arith)
            requires
                front.len() + 1 == elems.len(),
        ;
    }
}

/// The `i`-th run of the data of some elements holds the bytes of the
/// `i`-th element.
pub proof fn lemma_data_bytes_chunk<A: SaneData>(elems: Seq<A>, i: int)
    requires
        0 <= i < elems.len(),
    ensures
        spec_chunk(spec_data_bytes(elems), A::spec_data_type().spec_size(), i) == spec_elem_bytes(
            elems[i],
        ),
    decreases elems.len(),
{
    let size = A::spec_data_type().spec_size();
    let front = elems.drop_last();
    let data = spec_data_bytes(elems);
    let head = spec_data_bytes(front);
    lemma_data_bytes_len(front);
    lemma_elem_roundtrip(elems.last());
    if i < front.len() {
        lemma_data_bytes_chunk(front, i);
        assert(i * size + size <= front.len() * size) by (nonlinear_arith)
            requires
                0 <= i < front.len(),
        ;
        assert(0 <= i * size) by (nonlinear_arith)
            requires
                0 <= i,
        ;
        assert(head.len() == front.len() * size);
        assert(data.subrange(i * size, i * size + size) =~= head.subrange(
            i * size,
            i * size + size,
        ));
        assert(front[i] == elems[i]);
    } else {
        assert(i == front.len());
        assert(head.len() == i * size);
        assert(data.subrange(i * size, i * size + size) =~= spec_elem_bytes(elems.last()));
    }
}

/// Elements are read back from their data.
pub proof fn lemma_elems_of_data_bytes<A: SaneData>(elems: Seq<A>)
    ensures
        spec_elems::<A>(spec_data_bytes(elems)) == elems,
{
    let size = A::spec_data_type().spec_size();
    let data = spec_data_bytes(elems);
    lemma_data_bytes_len(elems);
    assert((elems.len() * size) / size == elems.len()) by (nonlinear_arith)
        requires
            size > 0,
    ;
    assert(spec_elems::<A>(data).len() == elems.len());
    assert forall|i: int| 0 <= i < elems.len() implies spec_elems::<A>(data)[i] == elems[i] by {
        lemma_data_bytes_chunk(elems, i);
        lemma_elem_roundtrip(elems[i]);
    }
    assert(spec_elems::<A>(data) =~= elems);
}

/// The little-endian bytes of one element.
pub fn element_to_le<A: SaneData>(elem: A) -> (r: Vec<u8>)
    ensures
        r@ == spec_elem_bytes(elem),
{
    le_encode(elem.to_bits(), A::sane_data_type().size())
}

/// The elements that little-endian data bytes hold. Bytes at the end that
/// do not make up an element are dropped.
pub fn elements_from_le<A: SaneData>(bytes: &[u8]) -> (r: Vec<A>)
    ensures
        r@ == spec_elems::<A>(bytes@),
{
    let size = A::sane_data_type().size();
    let len = bytes.len();
    let count = len / size;
    let mut elems: Vec<A> = Vec::new();
    let mut i: usize = 0;
    while i < count
        invariant
            size == A::spec_data_type().spec_size(),
            size == 1 || size == 4 || size == 8,
            count == bytes@.len() / (size as nat),
            len == bytes@.len(),
            i <= count,
            elems@.len() == i,
            forall|j: int|
                0 <= j < i ==> elems@[j] == spec_elem::<A>(spec_chunk(bytes@, size as nat, j)),
        decreases count - i,
    {
        proof {
            assert(i * size + size <= bytes@.len()) by (nonlinear_arith)
                requires
                    i < count,
                    count == bytes@.len() / (size as nat),
                    size > 0,
            ;
            lemma_le_value_bound(spec_chunk(bytes@, size as nat, i as int));
        }
        let bits = le_decode(bytes, i * size, size);
        elems.push(A::from_bits(bits));
        i = i + 1;
    }
    proof {
        assert(elems@ =~= spec_elems::<A>(bytes@));
    }
    elems
}

} // verus!
