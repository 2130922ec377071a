//! Parsed descriptions that still wait for the name of the file they came from.
use vstd::prelude::*;

verus! {

/// A description parsed from a file whose name is not known yet.
#[derive(Debug)]
pub struct Unnamed<T: ToNamed>(T);

/// The name given to an unnamed description is not a valid identifier; the
/// description is handed back with it.
#[derive(Debug)]
pub struct NameError<T>(pub String, pub T);

/// A description that can take its name from the file it was read from.
pub trait ToNamed: Sized {
    fn to_named(this: Unnamed<Self>, name: String) -> Result<Self, NameError<Self>>;
}

impl<T: ToNamed> Unnamed<T> {
    pub closed spec fn inner(&self) -> T {
        self.0
    }

    /// Wraps a parsed description.
    pub fn new(value: T) -> (r: Unnamed<T>)
        ensures
            r.inner() == value,
    {
        Unnamed(value)
    }

    /// The description without its name.
    pub fn into_inner(self) -> (r: T)
        ensures
            r == self.inner(),
    {
        self.0
    }

    /// Names the description after its file.
    pub fn to_named(self, name: String) -> Result<T, NameError<T>> {
        T::to_named(self, name)
    }
}

} // verus!
