//! A dynamic array with a stack interface, as the virtual machine uses it.

use vstd::prelude::*;

verus! {

/// A dynamic array; its view is the sequence of its elements.
pub struct CArray<T> {
    data: Vec<T>,
}

impl<T> View for CArray<T> {
    type V = Seq<T>;

    closed spec fn view(&self) -> Seq<T> {
        self.data@
    }
}

impl<T> CArray<T> {
    /// An empty array that holds no storage.
    pub fn new_nil() -> (a: CArray<T>)
        ensures
            a@ == Seq::<T>::empty(),
    {
        CArray { data: Vec::new() }
    }

    /// An empty array.
    pub fn new() -> (a: CArray<T>)
        ensures
            a@ == Seq::<T>::empty(),
    {
        CArray { data: Vec::new() }
    }

    /// The number of elements.
    pub fn len(&self) -> (n: usize)
        ensures
            n == self@.len(),
    {
        self.data.len()
    }

    /// The elements, as a slice.
    pub fn as_slice(&self) -> (s: &[T])
        ensures
            s@ == self@,
    {
        self.data.as_slice()
    }

    /// Pushes a value onto the array, increasing its length by 1.
    pub fn push(&mut self, val: T)
        ensures
            final(self)@ == old(self)@.push(val),
    {
        self.data.push(val);
    }

    /// Pops the top value from the array, decreasing its length by 1.
    pub fn pop(&mut self)
        requires
            old(self)@.len() > 0,
        ensures
            final(self)@ == old(self)@.drop_last(),
    {
        self.data.pop();
    }

    /// The top value of the stack.
    pub fn top(&self) -> (r: &T)
        requires
            self@.len() > 0,
        ensures
            *r == self@.last(),
    {
        &self.data[self.data.len() - 1]
    }

    /// The top value of the stack, to change it in place.
    pub fn top_mut(&mut self) -> (r: &mut T)
        requires
            old(self)@.len() > 0,
        ensures
            *r == old(self)@.last(),
            final(self)@ == old(self)@.update(old(self)@.len() - 1, *final(r)),
    {
        let idx = self.data.len() - 1;
        &mut self.data[idx]
    }

    /// The value at `idx`.
    pub fn index(&self, idx: usize) -> (r: &T)
        requires
            idx < self@.len(),
        ensures
            *r == self@[idx as int],
    {
        &self.data[idx]
    }

    /// An iterator over the elements, first to last.
    pub fn iter(&self) -> (it: ArrayIter<'_, T>)
        ensures
            it.array@ == self@,
            it.idx == 0,
    {
        ArrayIter { array: self, idx: 0 }
    }

    /// Inserts `elem` at position `pos`, before the element there.
    pub fn insert(&mut self, pos: usize, elem: T)
        requires
            pos < old(self)@.len(),
        ensures
            final(self)@ == old(self)@.insert(pos as int, elem),
    {
        self.data.insert(pos, elem);
    }

    /// Deletes `nelems` elements starting at `from_pos`.
    pub fn delete(&mut self, from_pos: usize, nelems: usize)
        requires
            from_pos + nelems <= old(self)@.len(),
        ensures
            final(self)@ == old(self)@.subrange(0, from_pos as int) + old(self)@.subrange(
                from_pos + nelems,
                old(self)@.len() as int,
            ),
    {
        let ghost s0 = self@;
        let mut k: usize = 0;
        while k < nelems
            invariant
                k <= nelems,
                from_pos + nelems <= s0.len(),
                self@ == s0.subrange(0, from_pos as int) + s0.subrange(from_pos + k, s0.len() as int),
            decreases nelems - k,
        {
            let ghost before = self@;
            self.data.remove(from_pos);
            assert(self@ =~= s0.subrange(0, from_pos as int) + s0.subrange(from_pos + k + 1, s0.len() as int));
            k += 1;
        }
    }
}

/// An iterator over the elements of a `CArray`.
pub struct ArrayIter<'a, T> {
    pub array: &'a CArray<T>,
    pub idx: usize,
}

impl<'a, T> ArrayIter<'a, T> {
    /// The next element, if any is left.
    pub fn next(&mut self) -> (r: Option<&'a T>)
        ensures
            final(self).array == old(self).array,
            old(self).idx < old(self).array@.len() ==> r == Some(&old(self).array@[old(self).idx as int])
                && final(self).idx == old(self).idx + 1,
            old(self).idx >= old(self).array@.len() ==> r is None && final(self).idx == old(self).idx,
    {
        if self.idx >= self.array.len() {
            return None;
        }
        let r = self.array.index(self.idx);
        self.idx = self.idx + 1;
        Some(r)
    }
}

} // verus!
