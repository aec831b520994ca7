//! A forward cursor over an input byte slice.

use vstd::prelude::*;

verus! {

/// A cursor over borrowed input: the bytes and the position of the next unread byte.
pub struct Read<'a> {
    data: &'a [u8],
    index: usize,
}

impl<'a> Read<'a> {
    #[verifier::type_invariant]
    spec fn cursor_in_bounds(self) -> bool {
        self.index <= self.data@.len()
    }

    /// The whole input.
    pub closed spec fn data(&self) -> Seq<u8> {
        self.data@
    }

    /// The position of the next unread byte.
    pub closed spec fn pos(&self) -> nat {
        self.index as nat
    }

    /// A cursor at the start of `data`.
    pub fn new(data: &'a [u8]) -> (r: Self)
        ensures
            r.data() == data@,
            r.pos() == 0,
    {
        Read { data, index: 0 }
    }

    /// The position of the next unread byte.
    pub fn index(&self) -> (i: usize)
        ensures
            i == self.pos(),
            i <= self.data().len(),
    {
        proof {
            use_type_invariant(self);
        }
        self.index
    }

    /// The length of the whole input.
    pub fn len(&self) -> (n: usize)
        ensures
            n == self.data().len(),
            self.pos() <= n,
    {
        proof {
            use_type_invariant(self);
        }
        self.data.len()
    }

    /// Moves the cursor to `index`.
    pub fn set_index(&mut self, index: usize)
        requires
            index <= old(self).data().len(),
        ensures
            final(self).data() == old(self).data(),
            final(self).pos() == index,
    {
        self.index = index;
    }

    /// The byte at `index`, wherever the cursor stands.
    pub fn at(&self, index: usize) -> (ch: u8)
        requires
            index < self.data().len(),
        ensures
            ch == self.data()[index as int],
    {
        self.data[index]
    }

    /// Reads the next byte and moves past it; `None` at the end of input.
    pub fn next(&mut self) -> (r: Option<u8>)
        ensures
            final(self).data() == old(self).data(),
            old(self).pos() <= old(self).data().len(),
            old(self).pos() < old(self).data().len() ==> r == Some(old(self).data()[old(self).pos() as int])
                && final(self).pos() == old(self).pos() + 1,
            old(self).pos() == old(self).data().len() ==> r is None && final(self).pos() == old(self).pos(),
    {
        proof {
            use_type_invariant(&*self);
        }
        if self.index < self.data.len() {
            let ch = self.data[self.index];
            self.index = self.index + 1;
            Some(ch)
        } else {
            None
        }
    }

    /// The next `n` unread bytes, without moving; `None` when fewer remain.
    pub fn peek_n(&self, n: usize) -> (r: Option<&'a [u8]>)
        ensures
            self.pos() <= self.data().len(),
            match r {
                Some(s) => self.pos() + n <= self.data().len()
                    && s@ == self.data().subrange(self.pos() as int, self.pos() + n),
                None => self.pos() + n > self.data().len(),
            },
    {
        proof {
            use_type_invariant(self);
        }
        if n <= self.data.len() - self.index {
            Some(vstd::slice::slice_subrange(self.data, self.index, self.index + n))
        } else {
            None
        }
    }

    /// Moves the cursor `n` bytes forward.
    pub fn eat(&mut self, n: usize)
        requires
            old(self).pos() + n <= old(self).data().len(),
        ensures
            final(self).data() == old(self).data(),
            final(self).pos() == old(self).pos() + n,
    {
        proof {
            assert(self.data.len() == self.data@.len());
        }
        self.index = self.index + n;
    }

    /// Moves past the next byte when `f` accepts it; says whether it did.
    pub fn eat_if<F: Fn(u8) -> bool>(&mut self, f: F) -> (r: bool)
        requires
            forall|c: u8| f.requires((c,)),
        ensures
            final(self).data() == old(self).data(),
            old(self).pos() <= old(self).data().len(),
            old(self).pos() < old(self).data().len() ==> f.ensures((old(self).data()[old(self).pos() as int],), r),
            old(self).pos() == old(self).data().len() ==> !r,
            final(self).pos() == if r { old(self).pos() + 1 } else { old(self).pos() },
    {
        proof {
            use_type_invariant(&*self);
        }
        if self.index < self.data.len() {
            let ch = self.data[self.index];
            if f(ch) {
                self.index = self.index + 1;
                return true;
            }
        }
        false
    }
}

} // verus!
