//! A vector with a fixed capacity `N`.
//!
//! The elements live in a `std::vec::Vec` whose room for all `N` elements is reserved when the
//! vector is created; since the length never exceeds `N`, it is never grown or reallocated
//! afterwards. An array `[T; N]` would avoid that one allocation, but slots that may be empty
//! need `MaybeUninit` and `unsafe` code, which verified code here cannot use.

use vstd::prelude::*;
use vstd::std_specs::cmp::{PartialEqSpec, PartialEqSpecImpl};

verus! {

/// A vector whose length never exceeds the capacity `N`.
#[derive(Debug, Hash)]
pub struct Vec<T, const N: usize> {
    buffer: std::vec::Vec<T>,
}

impl<T, const N: usize> View for Vec<T, N> {
    type V = Seq<T>;

    closed spec fn view(&self) -> Seq<T> {
        self.buffer@
    }
}

impl<T, const N: usize> Vec<T, N> {
    /// The vector holds no more than `N` elements.
    pub closed spec fn wf(&self) -> bool {
        self.buffer@.len() <= N
    }

    /// Constructs a new, empty vector with a fixed capacity of `N`.
    pub fn new() -> (v: Self)
        ensures
            v.wf(),
            v@ == Seq::<T>::empty(),
    {
        Vec { buffer: std::vec::Vec::with_capacity(N) }
    }

    /// Returns the maximum number of elements the vector can hold.
    pub fn capacity(&self) -> (r: usize)
        ensures
            r == N,
    {
        N
    }

    /// Returns the number of elements in the vector.
    pub fn len(&self) -> (r: usize)
        ensures
            r == self@.len(),
            self.wf() ==> r <= N,
    {
        self.buffer.len()
    }

    /// Returns whether the vector holds `N` elements.
    pub fn is_full(&self) -> (r: bool)
        ensures
            r == (self@.len() == N),
    {
        self.len() == self.capacity()
    }

    /// Appends `item` at the back; hands `item` back when the vector is full.
    pub fn push(&mut self, item: T) -> (r: Result<(), T>)
        requires
            old(self).wf(),
        ensures
            final(self).wf(),
            old(self)@.len() < N ==> r is Ok && final(self)@ == old(self)@.push(item),
            old(self)@.len() >= N ==> r == Err::<(), T>(item) && final(self)@ == old(self)@,
    {
        if self.len() < self.capacity() {
            self.push_unchecked(item);
            Ok(())
        } else {
            Err(item)
        }
    }

    /// Appends `item` at the back; the vector must not be full.
    pub fn push_unchecked(&mut self, item: T)
        requires
            old(self).wf(),
            old(self)@.len() < N,
        ensures
            final(self).wf(),
            final(self)@ == old(self)@.push(item),
    {
        self.buffer.push(item);
    }

    /// Returns whether the vector holds no element.
    pub fn is_empty(&self) -> (r: bool)
        ensures
            r == (self@.len() == 0),
    {
        self.buffer.len() == 0
    }

    /// Removes the last element and returns it, or `None` when the vector is empty.
    pub fn pop(&mut self) -> (r: Option<T>)
        requires
            old(self).wf(),
        ensures
            final(self).wf(),
            old(self)@.len() > 0 ==> r == Some(old(self)@.last()) && final(self)@
                == old(self)@.drop_last(),
            old(self)@.len() == 0 ==> r is None && final(self)@ == old(self)@,
    {
        if self.buffer.len() != 0 {
            Some(self.pop_unchecked())
        } else {
            None
        }
    }

    /// Removes the last element and returns it; the vector must not be empty.
    pub fn pop_unchecked(&mut self) -> (r: T)
        requires
            old(self).wf(),
            old(self)@.len() > 0,
        ensures
            final(self).wf(),
            r == old(self)@.last(),
            final(self)@ == old(self)@.drop_last(),
    {
        self.buffer.pop().unwrap()
    }

    /// Shortens the vector to its first `len` elements; a longer `len` changes nothing.
    pub fn truncate(&mut self, len: usize)
        requires
            old(self).wf(),
        ensures
            final(self).wf(),
            len < old(self)@.len() ==> final(self)@ == old(self)@.subrange(0, len as int),
            len >= old(self)@.len() ==> final(self)@ == old(self)@,
    {
        self.buffer.truncate(len);
    }

    /// Removes every element.
    pub fn clear(&mut self)
        requires
            old(self).wf(),
        ensures
            final(self).wf(),
            final(self)@ == Seq::<T>::empty(),
    {
        self.truncate(0);
    }

    /// Resizes the vector in place to `new_len` elements: a longer vector is filled at the back
    /// with clones of `value`, a shorter one is truncated. A `new_len` over the capacity is
    /// refused and leaves the vector unchanged.
    pub fn resize(&mut self, new_len: usize, value: T) -> (r: Result<(), ()>)
        where
            T: Clone,
        requires
            old(self).wf(),
        ensures
            final(self).wf(),
            r is Err <==> new_len > N,
            r is Err ==> final(self)@ == old(self)@,
            r is Ok ==> resized(old(self)@, final(self)@, new_len as nat, value),
    {
        if new_len > self.capacity() {
            return Err(());
        }
        if new_len > self.len() {
            let ghost start = self@;
            while self.len() < new_len
                invariant
                    new_len <= N,
                    start.len() < new_len,
                    start.len() <= self@.len() <= new_len,
                    self@.subrange(0, start.len() as int) == start,
                    forall|i: int| start.len() <= i < self@.len() ==> cloned(value, #[trigger] self@[i]),
                decreases new_len - self@.len(),
            {
                let item = value.clone();
                self.push_unchecked(item);
                assert(self@.subrange(0, start.len() as int) =~= start);
            }
        } else {
            self.truncate(new_len);
            assert(old(self)@.subrange(0, old(self)@.len() as int) =~= old(self)@);
        }
        Ok(())
    }
    /// Resizes the vector in place to `new_len` elements as [`Vec::resize`] does, filling any
    /// new places with clones of `T::default()`.
    pub fn resize_default(&mut self, new_len: usize) -> (r: Result<(), ()>)
        where
            T: Clone + Default,
        requires
            old(self).wf(),
        ensures
            final(self).wf(),
            r is Err <==> new_len > N,
            r is Err ==> final(self)@ == old(self)@,
            r is Ok ==> exists|d: T|
                call_ensures(T::default, (), d) && resized(old(self)@, final(self)@, new_len as nat, d),
    {
        let d = T::default();
        self.resize(new_len, d)
    }

    /// Appends clones of the elements of `other`, in order. Refuses, and changes nothing, when
    /// they would not all fit.
    pub fn extend_from_slice(&mut self, other: &[T]) -> (r: Result<(), ()>)
        where
            T: Clone,
        requires
            old(self).wf(),
        ensures
            final(self).wf(),
            r is Err <==> old(self)@.len() + other@.len() > N,
            r is Err ==> final(self)@ == old(self)@,
            r is Ok ==> appended_clones(old(self)@, final(self)@, other@),
    {
        if other.len() > self.capacity() || self.len() > self.capacity() - other.len() {
            return Err(());
        }
        let ghost start = self@;
        let mut k: usize = 0;
        while k < other.len()
            invariant
                start.len() + other@.len() <= N,
                k <= other@.len(),
                self@.len() == start.len() + k,
                self@.subrange(0, start.len() as int) == start,
                forall|i: int| 0 <= i < k ==> cloned(other@[i], #[trigger] self@[start.len() + i]),
            decreases other@.len() - k,
        {
            let item = other[k].clone();
            self.push_unchecked(item);
            assert(self@.subrange(0, start.len() as int) =~= start);
            k = k + 1;
        }
        Ok(())
    }

    /// Appends `items`, in order; they must all fit.
    pub fn extend(&mut self, items: std::vec::Vec<T>)
        requires
            old(self).wf(),
            old(self)@.len() + items@.len() <= N,
        ensures
            final(self).wf(),
            final(self)@ == old(self)@ + items@,
    {
        let mut items = items;
        self.buffer.append(&mut items);
    }

    /// Builds a vector from clones of the elements of `items`; refuses when more than `N` are
    /// given.
    pub fn from_slice(items: &[T]) -> (r: Result<Self, ()>)
        where
            T: Clone,
        ensures
            r is Err <==> items@.len() > N,
            r matches Ok(v) ==> v.wf() && appended_clones(Seq::empty(), v@, items@),
    {
        let mut v = Self::new();
        v.extend_from_slice(items)?;
        Ok(v)
    }

    /// Removes the element at `index` and returns it; the last element takes its place.
    /// `index` must be in bounds.
    pub fn swap_remove(&mut self, index: usize) -> (r: T)
        requires
            old(self).wf(),
            index < old(self)@.len(),
        ensures
            final(self).wf(),
            r == old(self)@[index as int],
            final(self)@ == old(self)@.update(index as int, old(self)@.last()).drop_last(),
    {
        self.swap_remove_unchecked(index)
    }

    /// Removes the element at `index` and returns it, moving the last element into its place.
    pub fn swap_remove_unchecked(&mut self, index: usize) -> (r: T)
        requires
            old(self).wf(),
            index < old(self)@.len(),
        ensures
            final(self).wf(),
            r == old(self)@[index as int],
            final(self)@ == old(self)@.update(index as int, old(self)@.last()).drop_last(),
    {
        self.buffer.swap_remove(index)
    }

    /// The elements, in order.
    pub fn as_slice(&self) -> (r: &[T])
        ensures
            r@ == self@,
    {
        self.buffer.as_slice()
    }

    /// Turns the vector into an iterator that hands out its elements by value, front first.
    pub fn into_iter(self) -> (r: IntoIter<T, N>)
        ensures
            r@ == self@,
    {
        IntoIter { rest: self.buffer }
    }
}

impl<T, const N: usize> core::ops::Deref for Vec<T, N> {
    type Target = [T];

    fn deref(&self) -> (r: &[T])
        ensures
            r@ == self@,
    {
        self.as_slice()
    }
}

impl<T, const N: usize> core::ops::DerefMut for Vec<T, N> {
    fn deref_mut(&mut self) -> (r: &mut [T])
        ensures
            r@ == old(self)@,
            final(r)@ == final(self)@,
    {
        self.buffer.as_mut_slice()
    }
}

impl<A: PartialEq<B>, B, const N1: usize, const N2: usize> PartialEq<Vec<B, N2>> for Vec<A, N1> {
    fn eq(&self, other: &Vec<B, N2>) -> (r: bool) {
        if self.buffer.len() != other.buffer.len() {
            return false;
        }
        let mut i: usize = 0;
        while i < self.buffer.len()
            invariant
                self@.len() == other@.len(),
                i <= self@.len(),
                <A as PartialEqSpec<B>>::obeys_eq_spec() ==> forall|j: int|
                    0 <= j < i ==> (#[trigger] self@[j]).eq_spec(&other@[j]),
            decreases self@.len() - i,
        {
            if !(self.buffer[i] == other.buffer[i]) {
                return false;
            }
            i = i + 1;
        }
        true
    }
}

impl<A: PartialEq<B>, B, const N1: usize, const N2: usize> PartialEqSpecImpl<Vec<B, N2>> for Vec<A, N1> {
    open spec fn obeys_eq_spec() -> bool {
        <A as PartialEqSpec<B>>::obeys_eq_spec()
    }

    /// Equal lengths, and the elements equal place by place.
    open spec fn eq_spec(&self, other: &Vec<B, N2>) -> bool {
        &&& self@.len() == other@.len()
        &&& forall|j: int| 0 <= j < self@.len() ==> (#[trigger] self@[j]).eq_spec(&other@[j])
    }
}

impl<T: Eq, const N: usize> Eq for Vec<T, N> {
}

/// An iterator that moves the elements out of a [`Vec`], front first.
pub struct IntoIter<T, const N: usize> {
    rest: std::vec::Vec<T>,
}

impl<T, const N: usize> View for IntoIter<T, N> {
    type V = Seq<T>;

    /// The elements not handed out yet.
    closed spec fn view(&self) -> Seq<T> {
        self.rest@
    }
}

impl<T, const N: usize> IntoIter<T, N> {
    /// Hands out the next element, or `None` once all have been.
    pub fn next(&mut self) -> (r: Option<T>)
        ensures
            old(self)@.len() > 0 ==> r == Some(old(self)@[0]) && final(self)@ == old(self)@.drop_first(),
            old(self)@.len() == 0 ==> r is None && final(self)@ == old(self)@,
    {
        if self.rest.len() > 0 {
            Some(self.rest.remove(0))
        } else {
            None
        }
    }
}

/// `grown` is `v` followed by one clone of each element of `other`, in order.
pub open spec fn appended_clones<T: Clone>(v: Seq<T>, grown: Seq<T>, other: Seq<T>) -> bool {
    &&& grown.len() == v.len() + other.len()
    &&& grown.subrange(0, v.len() as int) == v
    &&& forall|i: int| 0 <= i < other.len() ==> cloned(other[i], #[trigger] grown[v.len() + i])
}


/// `grown` is `v` resized to `len` elements, with clones of `value` filling any new places.
pub open spec fn resized<T: Clone>(v: Seq<T>, grown: Seq<T>, len: nat, value: T) -> bool {
    if len <= v.len() {
        grown == v.subrange(0, len as int)
    } else {
        &&& grown.len() == len
        &&& grown.subrange(0, v.len() as int) == v
        &&& forall|i: int| v.len() <= i < len ==> cloned(value, #[trigger] grown[i])
    }
}

} // verus!
