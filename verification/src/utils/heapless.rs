//! A vector with a fixed capacity.

use vstd::prelude::*;

verus! {

/// At most `N` items, in the order in which they were pushed.
pub struct HeaplessVec<T, const N: usize> {
    buf: Vec<T>,
}

impl<T, const N: usize> View for HeaplessVec<T, N> {
    type V = Seq<T>;

    closed spec fn view(&self) -> Seq<T> {
        self.buf@
    }
}

impl<T, const N: usize> HeaplessVec<T, N> {
    /// Validity: no more items than the capacity.
    pub open spec fn wf(&self) -> bool {
        self@.len() <= N
    }

    /// The empty vector.
    pub fn new() -> (v: Self)
        ensures
            v.wf(),
            v@.len() == 0,
    {
        HeaplessVec { buf: Vec::new() }
    }

    /// Adds `item` at the end, or hands it back where the vector is full.
    pub fn push(&mut self, item: T) -> (r: Result<(), T>)
        requires
            old(self).wf(),
        ensures
            final(self).wf(),
            r is Ok <==> old(self)@.len() < N,
            r is Ok ==> final(self)@ == old(self)@.push(item),
            r is Err ==> r->Err_0 == item && final(self)@ == old(self)@,
    {
        if self.buf.len() >= N {
            return Err(item);
        }
        self.buf.push(item);
        Ok(())
    }

    /// Adds `item` before place `index`, or hands it back where the vector
    /// is full or has no such place.
    pub fn insert(&mut self, index: usize, item: T) -> (r: Result<(), T>)
        requires
            old(self).wf(),
        ensures
            final(self).wf(),
            r is Ok <==> old(self)@.len() < N && index <= old(self)@.len(),
            r is Ok ==> final(self)@ == old(self)@.insert(index as int, item),
            r is Err ==> r->Err_0 == item && final(self)@ == old(self)@,
    {
        if self.buf.len() >= N || index > self.buf.len() {
            return Err(item);
        }
        self.buf.insert(index, item);
        Ok(())
    }

    /// Takes the last item off.
    pub fn pop(&mut self) -> (r: Option<T>)
        requires
            old(self).wf(),
        ensures
            final(self).wf(),
            r is Some <==> old(self)@.len() > 0,
            r is Some ==> r->0 == old(self)@.last() && final(self)@ == old(self)@.drop_last(),
            r is None ==> final(self)@ == old(self)@,
    {
        self.buf.pop()
    }

    /// The item at place `index`.
    pub fn get(&self, index: usize) -> (r: Option<&T>)
        ensures
            r is Some <==> index < self@.len(),
            r is Some ==> *r->0 == self@[index as int],
    {
        if index >= self.buf.len() {
            return None;
        }
        Some(&self.buf[index])
    }

    /// The item at place `index`, to change it in place.
    pub fn get_mut(&mut self, index: usize) -> (r: Option<&mut T>)
        ensures
            r is Some <==> index < old(self)@.len(),
            r is None ==> final(self)@ == old(self)@,
            r is Some ==> *r->0 == old(self)@[index as int] && final(self)@ == old(self)@.update(
                index as int,
                *final(r->0),
            ),
    {
        if index >= self.buf.len() {
            return None;
        }
        Some(&mut self.buf[index])
    }

    pub fn len(&self) -> (r: usize)
        ensures
            r == self@.len(),
    {
        self.buf.len()
    }

    pub fn capacity(&self) -> (r: usize)
        ensures
            r == N,
    {
        N
    }

    pub fn is_empty(&self) -> (r: bool)
        ensures
            r == (self@.len() == 0),
    {
        self.buf.len() == 0
    }

    pub fn is_full(&self) -> (r: bool)
        ensures
            r == (self@.len() == N),
    {
        self.buf.len() == N
    }

    /// The items as a slice.
    pub fn as_slice(&self) -> (r: &[T])
        ensures
            r@ == self@,
    {
        self.buf.as_slice()
    }
}

impl<T, const N: usize> Default for HeaplessVec<T, N> {
    fn default() -> (v: Self)
        ensures
            v.wf(),
            v@.len() == 0,
    {
        HeaplessVec::new()
    }
}

} // verus!
