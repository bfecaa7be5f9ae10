//! A `Vec<T>` wrapper that behaves exactly like `Vec<T>`.

use vstd::prelude::*;
use vstd::std_specs::iter::IteratorSpec;

verus! {

/// Transparent wrapper around `Vec<T>`; its model is the sequence of its
/// elements.
#[derive(Debug, Clone, PartialEq, Eq, Hash)]
pub struct SpecVec<T> {
    inner: Vec<T>,
}

impl<T> View for SpecVec<T> {
    type V = Seq<T>;

    closed spec fn view(&self) -> Seq<T> {
        self.inner@
    }
}

impl<T> SpecVec<T> {
    /// Creates a new empty `SpecVec`.
    pub fn new() -> (v: Self)
        ensures
            v@ == Seq::<T>::empty(),
    {
        SpecVec { inner: Vec::new() }
    }

    /// The number of elements in the vector.
    pub fn len(&self) -> (n: usize)
        ensures
            n == self@.len(),
    {
        self.inner.len()
    }

    /// Whether the vector holds no elements.
    pub fn is_empty(&self) -> (b: bool)
        ensures
            b <==> self@.len() == 0,
    {
        self.inner.is_empty()
    }

    /// Appends an element to the back of the vector.
    pub fn push(&mut self, value: T)
        ensures
            final(self)@ == old(self)@.push(value),
    {
        self.inner.push(value);
    }

    /// Removes the last element and returns it, or `None` if empty.
    pub fn pop(&mut self) -> (value: Option<T>)
        ensures
            old(self)@.len() > 0 ==> value == Some(old(self)@.last()) && final(self)@
                == old(self)@.drop_last(),
            old(self)@.len() == 0 ==> value is None && final(self)@ == old(self)@,
    {
        let r = self.inner.pop();
        proof {
            if old(self)@.len() > 0 {
                assert(self@ =~= old(self)@.drop_last());
            }
        }
        r
    }

    /// Removes all elements.
    pub fn clear(&mut self)
        ensures
            final(self)@ == Seq::<T>::empty(),
    {
        self.inner.clear();
    }
}

/// Popping right after a push gives back the pushed element and the
/// vector as it was.
pub proof fn lemma_push_then_pop<T>(s: Seq<T>, value: T)
    ensures
        s.push(value).len() == s.len() + 1,
        s.push(value).last() == value,
        s.push(value).drop_last() == s,
{
    assert(s.push(value).drop_last() =~= s);
}

impl<T> From<Vec<T>> for SpecVec<T> {
    fn from(inner: Vec<T>) -> (v: Self)
        ensures
            v@ == inner@,
    {
        SpecVec { inner }
    }
}

impl<T> vstd::std_specs::convert::FromSpecImpl<Vec<T>> for SpecVec<T> {
    open spec fn obeys_from_spec() -> bool {
        false
    }

    open spec fn from_spec(inner: Vec<T>) -> Self {
        arbitrary()
    }
}

impl<T> From<SpecVec<T>> for Vec<T> {
    fn from(spec_vec: SpecVec<T>) -> (v: Self)
        ensures
            v@ == spec_vec@,
    {
        spec_vec.inner
    }
}

impl<T> vstd::std_specs::convert::FromSpecImpl<SpecVec<T>> for Vec<T> {
    open spec fn obeys_from_spec() -> bool {
        false
    }

    open spec fn from_spec(spec_vec: SpecVec<T>) -> Self {
        arbitrary()
    }
}

impl<T> core::ops::Deref for SpecVec<T> {
    type Target = Vec<T>;

    fn deref(&self) -> (v: &Vec<T>)
        ensures
            v@ == self@,
    {
        &self.inner
    }
}

impl<T> Default for SpecVec<T> {
    fn default() -> (v: Self)
        ensures
            v@ == Seq::<T>::empty(),
    {
        SpecVec::new()
    }
}

impl<T> AsRef<[T]> for SpecVec<T> {
    fn as_ref(&self) -> (s: &[T])
        ensures
            s@ == self@,
    {
        self.inner.as_slice()
    }
}

impl<T> AsMut<[T]> for SpecVec<T> {
    fn as_mut(&mut self) -> (s: &mut [T])
        ensures
            s@ == old(self)@,
            final(s)@ == final(self)@,
    {
        self.inner.as_mut_slice()
    }
}

impl<'a, T> IntoIterator for &'a SpecVec<T> {
    type Item = &'a T;

    type IntoIter = std::slice::Iter<'a, T>;

    /// Iterates over references to the elements, front to back.
    fn into_iter(self) -> (it: Self::IntoIter)
        ensures
            IteratorSpec::remaining(&it) == self@.as_ref(),
    {
        self.inner.iter()
    }
}

impl<T> IntoIterator for SpecVec<T> {
    type Item = T;

    type IntoIter = std::vec::IntoIter<T>;

    /// Iterates over the elements by value, front to back.
    fn into_iter(self) -> (it: Self::IntoIter)
        ensures
            IteratorSpec::remaining(&it) == self@,
    {
        self.inner.into_iter()
    }
}

} // verus!
