use vstd::prelude::*;

use crate::error::VirgoError;

verus! {

/// Where the storage of a buffer lives.
#[derive(Clone, Copy, Debug, PartialEq, Eq, Structural)]
pub enum Residency {
    /// Memory directly accessible to the calling process.
    Host,
    /// Memory owned by an accelerator.
    Device,
}

/// A table of field elements of known length, tagged with its residency.
pub struct Buffer<F> {
    data: Vec<F>,
    residency: Residency,
}

impl<F> View for Buffer<F> {
    type V = Seq<F>;

    closed spec fn view(&self) -> Seq<F> {
        self.data@
    }
}

impl<F: Copy> Buffer<F> {
    /// The spec-level residency tag.
    pub closed spec fn spec_residency(&self) -> Residency {
        self.residency
    }

    /// A buffer holding `data`, placed at `residency`.
    pub fn from_vec(data: Vec<F>, residency: Residency) -> (r: Self)
        ensures
            r@ == data@,
            r.spec_residency() == residency,
    {
        Buffer { data, residency }
    }

    /// A buffer holding `len` copies of `fill`, placed at `residency`.
    pub fn filled(fill: F, len: usize, residency: Residency) -> (r: Self)
        ensures
            r@ == Seq::new(len as nat, |i: int| fill),
            r.spec_residency() == residency,
    {
        let mut data: Vec<F> = Vec::new();
        let mut i: usize = 0;
        while i < len
            invariant
                i <= len,
                data@ == Seq::new(i as nat, |j: int| fill),
            decreases len - i,
        {
            data.push(fill);
            i = i + 1;
        }
        Buffer { data, residency }
    }

    /// The number of elements.
    pub fn len(&self) -> (r: usize)
        ensures
            r == self@.len(),
    {
        self.data.len()
    }

    /// The residency tag.
    pub fn residency(&self) -> (r: Residency)
        ensures
            r == self.spec_residency(),
    {
        self.residency
    }

    /// Whether the storage is owned by an accelerator.
    pub fn is_on_device(&self) -> (r: bool)
        ensures
            r == (self.spec_residency() == Residency::Device),
    {
        match self.residency {
            Residency::Device => true,
            Residency::Host => false,
        }
    }

    /// All elements, in order.
    pub fn as_slice(&self) -> (r: &[F])
        ensures
            r@ == self@,
    {
        self.data.as_slice()
    }

    /// The element at `i`, or `OutOfBounds` when `i >= len()`.
    pub fn read(&self, i: usize) -> (r: Result<F, VirgoError>)
        ensures
            i < self@.len() ==> r == Ok::<F, VirgoError>(self@[i as int]),
            i >= self@.len() ==> r == Err::<F, VirgoError>(VirgoError::OutOfBounds),
    {
        if i < self.data.len() {
            Ok(self.data[i])
        } else {
            Err(VirgoError::OutOfBounds)
        }
    }

    /// Stores `x` at `i`; fails with `OutOfBounds`, changing nothing, when `i >= len()`.
    pub fn write(&mut self, i: usize, x: F) -> (r: Result<(), VirgoError>)
        ensures
            i < old(self)@.len() ==> r == Ok::<(), VirgoError>(()) && final(self)@ == old(
                self,
            )@.update(i as int, x),
            i >= old(self)@.len() ==> r == Err::<(), VirgoError>(VirgoError::OutOfBounds)
                && final(self)@ == old(self)@,
            final(self).spec_residency() == old(self).spec_residency(),
    {
        if i < self.data.len() {
            self.data.set(i, x);
            Ok(())
        } else {
            Err(VirgoError::OutOfBounds)
        }
    }

    /// The elements as a vector.
    pub fn to_vec(&self) -> (r: Vec<F>)
        ensures
            r@ == self@,
    {
        let mut out: Vec<F> = Vec::new();
        let mut i: usize = 0;
        while i < self.data.len()
            invariant
                i <= self.data@.len(),
                out@ == self.data@.subrange(0, i as int),
            decreases self.data@.len() - i,
        {
            out.push(self.data[i]);
            i = i + 1;
            assert(out@ =~= self.data@.subrange(0, i as int));
        }
        assert(self.data@.subrange(0, self.data@.len() as int) =~= self.data@);
        out
    }
}

} // verus!
