//! A stream of bytes in memory that is read from front to back.
use vstd::prelude::*;
use vstd::slice::{slice_subrange, slice_to_vec};

verus! {

/// The first `n` bytes of `input`, where it has that many.
pub open spec fn spec_read_exact(input: Seq<u8>, n: nat) -> Option<Seq<u8>> {
    if n <= input.len() {
        Some(input.take(n as int))
    } else {
        None
    }
}

/// What is left of `input` once `n` bytes were asked of it: the rest where
/// it had that many, nothing where it had fewer.
pub open spec fn spec_after_read(input: Seq<u8>, n: nat) -> Seq<u8> {
    if n <= input.len() {
        input.skip(n as int)
    } else {
        Seq::empty()
    }
}

/// Bytes in memory with a read position. It stands for the bytes that have
/// not been read yet: that is its view.
#[derive(Debug)]
pub struct ByteStream<'a> {
    data: &'a [u8],
    pos: usize,
}

impl<'a> View for ByteStream<'a> {
    type V = Seq<u8>;

    closed spec fn view(&self) -> Seq<u8> {
        self.data@.skip(self.pos as int)
    }
}

impl<'a> ByteStream<'a> {
    #[verifier::type_invariant]
    spec fn wf(&self) -> bool {
        self.pos <= self.data@.len()
    }

    /// A stream that reads `data` from its first byte.
    pub fn new(data: &'a [u8]) -> (stream: Self)
        ensures
            stream@ == data@,
    {
        ByteStream { data, pos: 0 }
    }

    /// The number of bytes that have not been read yet.
    pub fn remaining(&self) -> (n: usize)
        ensures
            n == self@.len(),
    {
        proof {
            use_type_invariant(self);
        }
        self.data.len() - self.pos
    }

    /// Passes over all the bytes that are left.
    pub fn skip_to_end(&mut self)
        ensures
            final(self)@ == Seq::<u8>::empty(),
    {
        let len = self.data.len();
        proof {
            assert(self.data@.skip(len as int) =~= Seq::<u8>::empty());
        }
        self.pos = len;
    }

    /// Reads the next `n` bytes. Where fewer are left, they are all passed
    /// over and nothing is returned.
    pub fn read_exact(&mut self, n: usize) -> (r: Option<Vec<u8>>)
        ensures
            r is Some <==> n <= old(self)@.len(),
            r matches Some(bytes) ==> Some(bytes@) == spec_read_exact(old(self)@, n as nat),
            final(self)@ == spec_after_read(old(self)@, n as nat),
    {
        proof {
            use_type_invariant(&*self);
        }
        let len = self.data.len();
        if n <= len - self.pos {
            let end = self.pos + n;
            let bytes = slice_to_vec(slice_subrange(self.data, self.pos, end));
            proof {
                assert(bytes@ =~= self@.take(n as int));
                assert(self.data@.skip(end as int) =~= self@.skip(n as int));
            }
            self.pos = end;
            Some(bytes)
        } else {
            proof {
                assert(self.data@.skip(len as int) =~= Seq::<u8>::empty());
            }
            self.pos = len;
            None
        }
    }
}

} // verus!
