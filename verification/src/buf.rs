//! A byte buffer with a fixed capacity.

use vstd::prelude::*;

use crate::bytes;

verus! {

/// A byte buffer that holds at most `N` bytes.
#[derive(Debug)]
pub struct Buf<const N: usize> {
    pub data: Vec<u8>,
}

impl<const N: usize> View for Buf<N> {
    type V = Seq<u8>;

    open spec fn view(&self) -> Seq<u8> {
        self.data@
    }
}

impl<const N: usize> Buf<N> {
    /// The contents are within the capacity.
    pub open spec fn wf(&self) -> bool {
        self@.len() <= N
    }

    pub fn new() -> (r: Self)
        ensures
            r.wf(),
            r@ == Seq::<u8>::empty(),
    {
        Buf { data: Vec::new() }
    }

    /// A buffer on top of storage that was used before. Its contents are dropped.
    pub fn from_storage(storage: Vec<u8>) -> (r: Self)
        ensures
            r.wf(),
            r@ == Seq::<u8>::empty(),
    {
        let mut data = storage;
        data.clear();
        Buf { data }
    }

    /// Takes the storage out and leaves an empty buffer.
    pub fn take_storage(&mut self) -> (r: Vec<u8>)
        ensures
            final(self).wf(),
            final(self)@ == Seq::<u8>::empty(),
            r@ == old(self)@,
    {
        let mut data: Vec<u8> = Vec::new();
        std::mem::swap(&mut data, &mut self.data);
        data
    }

    pub fn len(&self) -> (n: usize)
        ensures
            n == self@.len(),
    {
        self.data.len()
    }

    pub fn is_empty(&self) -> (r: bool)
        ensures
            r == (self@.len() == 0),
    {
        self.data.len() == 0
    }

    pub fn as_slice(&self) -> (r: &[u8])
        ensures
            r@ == self@,
    {
        self.data.as_slice()
    }

    /// Appends bytes, or fails and changes nothing where they do not fit.
    pub fn extend_from_slice(&mut self, src: &[u8]) -> (r: Result<(), ()>)
        requires
            old(self).wf(),
        ensures
            final(self).wf(),
            if old(self)@.len() + src@.len() <= N {
                r == Ok::<(), ()>(()) && final(self)@ == old(self)@ + src@
            } else {
                r == Err::<(), ()>(()) && final(self)@ == old(self)@
            },
    {
        if N - self.data.len() < src.len() {
            return Err(());
        }
        bytes::append(&mut self.data, src);
        Ok(())
    }

    /// Appends zeros up to a length of `n`.
    pub fn pad_to(&mut self, n: usize)
        requires
            old(self)@.len() <= n <= N,
        ensures
            final(self).wf(),
            final(self)@ == old(self)@ + Seq::new((n - old(self)@.len()) as nat, |i: int| 0u8),
    {
        let ghost start = self.data@;
        assert(self.data@ =~= start + Seq::new(0, |i: int| 0u8));
        while self.data.len() < n
            invariant
                start.len() <= self.data@.len() <= n,
                self.data@ == start + Seq::new((self.data@.len() - start.len()) as nat, |i: int| 0u8),
            decreases n - self.data@.len(),
        {
            self.data.push(0);
            assert(self.data@ =~= start + Seq::new(
                (self.data@.len() - start.len()) as nat,
                |i: int| 0u8,
            ));
        }
    }

    pub fn clear(&mut self)
        ensures
            final(self).wf(),
            final(self)@ == Seq::<u8>::empty(),
    {
        self.data.clear();
    }

    /// Removes the first `n` bytes.
    pub fn drain_front(&mut self, n: usize)
        requires
            old(self).wf(),
            n <= old(self)@.len(),
        ensures
            final(self).wf(),
            final(self)@ == old(self)@.skip(n as int),
    {
        let total: usize = self.data.len();
        let ghost start = self.data@;
        let mut i: usize = n;
        while i < total
            invariant
                n <= i <= total,
                self.data@.len() == total,
                start.len() == total,
                forall|j: int| 0 <= j < i - n ==> self.data@[j] == start[j + n],
                forall|j: int| i <= j < total ==> self.data@[j] == start[j],
            decreases total - i,
        {
            let b: u8 = self.data[i];
            self.data[i - n] = b;
            i = i + 1;
        }
        self.data.truncate(total - n);
        assert(self.data@ =~= start.skip(n as int));
    }
}

} // verus!
