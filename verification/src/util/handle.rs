use std::hash::{Hash, Hasher};
use std::marker::PhantomData;
use vstd::prelude::*;

verus! {

/// A typed index into a collection of `T`.
pub struct Handle<T> {
    pub index: usize,
    pub _marker: PhantomData<T>,
}

impl<T> Handle<T> {
    pub fn new(index: usize) -> (h: Handle<T>)
        ensures
            h.index == index,
    {
        Self { index, _marker: PhantomData }
    }
}

impl<T> Copy for Handle<T> {

}

impl<T> Clone for Handle<T> {
    fn clone(&self) -> (r: Self)
        ensures
            r == *self,
    {
        *self
    }
}

impl<T> PartialEq for Handle<T> {
    fn eq(&self, other: &Self) -> (r: bool) {
        self.index == other.index
    }
}

impl<T> vstd::std_specs::cmp::PartialEqSpecImpl for Handle<T> {
    open spec fn obeys_eq_spec() -> bool {
        true
    }

    open spec fn eq_spec(&self, other: &Self) -> bool {
        self.index == other.index
    }
}

impl<T> Eq for Handle<T> {

}

impl<T> Hash for Handle<T> {
    /// Feeds the index to the hasher with `<usize as Hash>::hash`, so that a
    /// handle hashes as its index does. Nothing is stated of the hasher's
    /// state afterwards.
    #[verifier::external_body]
    fn hash<H: Hasher>(&self, state: &mut H) {
        self.index.hash(state);
    }
}

} // verus!
