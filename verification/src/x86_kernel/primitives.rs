//! A value set once the kernel can build it.
use vstd::prelude::*;

verus! {

/// A value that may not have been set yet.
pub struct LazyInitialised<T> {
    inner: Option<T>,
}

impl<T> LazyInitialised<T> {
    pub closed spec fn value(&self) -> Option<T> {
        self.inner
    }

    pub fn uninit() -> (r: Self)
        ensures
            r.value() is None,
    {
        LazyInitialised { inner: None }
    }

    pub fn unset(&mut self)
        ensures
            final(self).value() is None,
    {
        self.inner = None;
    }

    pub fn set(&mut self, val: T)
        ensures
            final(self).value() == Some(val),
    {
        self.inner = Some(val);
    }

    pub fn is_initialised(&self) -> (r: bool)
        ensures
            r == self.value() is Some,
    {
        self.inner.is_some()
    }

    /// The value; it must have been set.
    pub fn get(&self) -> (r: &T)
        requires
            self.value() is Some,
        ensures
            Some(*r) == self.value(),
    {
        match &self.inner {
            Some(v) => v,
            None => unreached(),
        }
    }
}

} // verus!
