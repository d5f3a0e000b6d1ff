//! Handles that tie an accessor to the borrow of the container it came from.
use std::marker::PhantomData;
use vstd::prelude::*;

verus! {

/// Binds a storage accessor to a lifetime, so that it cannot outlive the borrow it came from.
/// It gives shared access only; see `StorageGuardMut` for mutable access.
pub struct StorageGuard<'a, T: 'a> {
    inner: T,
    marker: PhantomData<&'a T>,
}

impl<'a, T: 'a> StorageGuard<'a, T> {
    /// The accessor held.
    pub closed spec fn spec_inner(&self) -> T {
        self.inner
    }

    /// Creates a new storage guard around an accessor.
    pub fn new(inner: T) -> (r: Self)
        ensures
            r.spec_inner() == inner,
    {
        StorageGuard { inner, marker: PhantomData }
    }

    /// The accessor held.
    pub fn inner(&self) -> (r: &T)
        ensures
            *r == self.spec_inner(),
    {
        &self.inner
    }
}

/// Binds a storage accessor to a lifetime, so that it cannot outlive the mutable borrow it
/// came from. It gives mutable access.
pub struct StorageGuardMut<'a, T: 'a> {
    inner: T,
    marker: PhantomData<&'a T>,
}

impl<'a, T: 'a> StorageGuardMut<'a, T> {
    /// The accessor held.
    pub closed spec fn spec_inner(&self) -> T {
        self.inner
    }

    /// Creates a new storage guard around an accessor.
    pub fn new(inner: T) -> (r: Self)
        ensures
            r.spec_inner() == inner,
    {
        StorageGuardMut { inner, marker: PhantomData }
    }

    /// The accessor held.
    pub fn inner(&self) -> (r: &T)
        ensures
            *r == self.spec_inner(),
    {
        &self.inner
    }

    /// The accessor held, for mutation.
    pub fn inner_mut(&mut self) -> (r: &mut T)
        ensures
            *r == old(self).spec_inner(),
            final(self).spec_inner() == *final(r),
    {
        &mut self.inner
    }
}

impl<'a, T: 'a> std::ops::Deref for StorageGuard<'a, T> {
    type Target = T;

    fn deref(&self) -> &T {
        &self.inner
    }
}

impl<'a, T: 'a> std::ops::Deref for StorageGuardMut<'a, T> {
    type Target = T;

    fn deref(&self) -> &T {
        &self.inner
    }
}

impl<'a, T: 'a> std::ops::DerefMut for StorageGuardMut<'a, T> {
    fn deref_mut(&mut self) -> &mut T {
        &mut self.inner
    }
}

} // verus!
