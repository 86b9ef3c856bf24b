use vstd::prelude::*;

verus! {

/// A view of contiguous storage from which elements can be read by offset.
pub trait Readable<T> {
    /// The elements that the view covers, in order.
    spec fn readable(&self) -> Seq<T>;

    /// Reads the element at `offset`, which must lie inside the view.
    fn read(&self, offset: usize) -> (val: T)
        requires
            offset < self.readable().len(),
        ensures
            val == self.readable()[offset as int],
    ;
}

impl<T: Copy> Readable<T> for &[T] {
    open spec fn readable(&self) -> Seq<T> {
        self@
    }

    fn read(&self, offset: usize) -> (val: T) {
        self[offset]
    }
}

impl<T: Copy> Readable<T> for &mut [T] {
    open spec fn readable(&self) -> Seq<T> {
        self@
    }

    fn read(&self, offset: usize) -> (val: T) {
        self[offset]
    }
}

/// A view of contiguous storage into which elements can be written by
/// offset.
pub trait Writable<T> {
    /// The elements that the view covers, in order.
    spec fn writable(&self) -> Seq<T>;

    /// Overwrites the element at `offset`, which must lie inside the view,
    /// and leaves every other element as it was.
    fn write(&mut self, offset: usize, val: T)
        requires
            offset < old(self).writable().len(),
        ensures
            final(self).writable() == old(self).writable().update(offset as int, val),
    ;
}

impl<T> Writable<T> for &mut [T] {
    open spec fn writable(&self) -> Seq<T> {
        self@
    }

    fn write(&mut self, offset: usize, val: T) {
        self[offset] = val;
    }
}

} // verus!
