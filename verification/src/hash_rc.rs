use vstd::prelude::*;
use std::rc::Rc;

verus! {

/// A shared pointer that is compared and hashed by the allocation it points
/// to, not by the value there, so that shared assets can key a map.
pub struct HashRc<T>(Rc<T>);

impl<T> HashRc<T> {
    /// The shared pointer that this key wraps.
    pub closed spec fn inner(&self) -> Rc<T> {
        self.0
    }
}

/// The shared pointer that a reference points at.
pub open spec fn pointee<T>(r: &Rc<T>) -> Rc<T> {
    *r
}

impl<T> vstd::std_specs::convert::FromSpecImpl<Rc<T>> for HashRc<T> {
    open spec fn obeys_from_spec() -> bool {
        true
    }

    closed spec fn from_spec(v: Rc<T>) -> HashRc<T> {
        HashRc(v)
    }
}

impl<T> From<Rc<T>> for HashRc<T> {
    fn from(value: Rc<T>) -> (h: HashRc<T>)
        ensures
            h.inner() == value,
    {
        HashRc(value)
    }
}

impl<T> std::borrow::Borrow<Rc<T>> for HashRc<T> {
    fn borrow(&self) -> (r: &Rc<T>)
        ensures
            pointee(r) == self.inner(),
    {
        &self.0
    }
}

impl<T> std::ops::Deref for HashRc<T> {
    type Target = Rc<T>;

    fn deref(&self) -> (r: &Rc<T>)
        ensures
            *r == self.inner(),
    {
        &self.0
    }
}

impl<T> PartialEq for HashRc<T> {
    /// `Rc::ptr_eq`: whether the two keys point to the same allocation. What
    /// is stated is what follows from that: pointers to one allocation see
    /// one value. Which allocations are shared is not stated.
    #[verifier::external_body]
    fn eq(&self, other: &HashRc<T>) -> (same: bool)
        ensures
            same ==> *self.inner() == *other.inner(),
    {
        Rc::ptr_eq(&self.0, &other.0)
    }
}

impl<T> Eq for HashRc<T> {}

impl<T> std::hash::Hash for HashRc<T> {
    /// `std::ptr::hash`: feeds the address of the allocation to the hasher.
    /// Nothing is stated: the address is the machine's.
    #[verifier::external_body]
    fn hash<H: std::hash::Hasher>(&self, state: &mut H) {
        std::ptr::hash(Rc::as_ptr(&self.0), state)
    }
}

} // verus!
