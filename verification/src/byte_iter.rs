//! A cursor over a byte slice, consumed from the front.
use vstd::prelude::*;

verus! {

/// A cursor over the bytes of a `gt` file.
///
/// Its view is the sequence of bytes that have not been read yet.
pub struct ByteIter<'a> {
    data: &'a [u8],
    index: usize,
}

impl<'a> ByteIter<'a> {
    #[verifier::type_invariant]
    spec fn inv(self) -> bool {
        self.index <= self.data@.len()
    }

    /// A cursor at the start of `data`.
    pub fn new(data: &'a [u8]) -> (it: Self)
        ensures
            it@ == data@,
    {
        let it = ByteIter { data, index: 0 };
        assert(it@ =~= data@);
        it
    }

    /// The number of bytes not read yet.
    pub fn len(&self) -> (n: usize)
        ensures
            n == self@.len(),
    {
        proof {
            use_type_invariant(self);
        }
        self.data.len() - self.index
    }

    /// The next byte, without reading it, or `None` at the end of the input.
    pub fn peek(&self) -> (b: Option<u8>)
        ensures
            self@.len() > 0 ==> b == Some(self@[0]),
            self@.len() == 0 ==> b is None,
    {
        proof {
            use_type_invariant(self);
        }
        if self.index < self.data.len() {
            Some(self.data[self.index])
        } else {
            None
        }
    }

    /// Reads the next byte, or gives `None` at the end of the input.
    pub fn next_byte(&mut self) -> (b: Option<u8>)
        ensures
            old(self)@.len() > 0 ==> b == Some(old(self)@[0]) && final(self)@ == old(self)@.drop_first(),
            old(self)@.len() == 0 ==> b is None && final(self)@ == old(self)@,
    {
        proof {
            use_type_invariant(&*self);
        }
        if self.index < self.data.len() {
            let b = self.data[self.index];
            self.index = self.index + 1;
            assert(self@ =~= old(self)@.drop_first());
            Some(b)
        } else {
            None
        }
    }
}

impl<'a> View for ByteIter<'a> {
    type V = Seq<u8>;

    /// The bytes that have not been read yet.
    closed spec fn view(&self) -> Seq<u8> {
        self.data@.subrange(self.index as int, self.data@.len() as int)
    }
}

} // verus!
