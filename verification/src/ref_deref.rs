//! Building a value from a reference to another.
use vstd::prelude::*;

verus! {

/// A fallible conversion from a reference to a `T`; `Error` says why it
/// failed.
pub trait TryFromRef<T: Sized> {
    type Error;

    fn try_from_ref(value: &T) -> Result<Self, Self::Error>
        where Self: Sized
    ;
}

} // verus!
