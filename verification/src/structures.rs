//! Small ownership helpers shared across the kernel.

use vstd::prelude::*;

verus! {

/// Allows for marking a thing as permanent: a value that, once created,
/// stays available for the rest of the kernel's lifetime.
#[derive(Clone, Copy, Debug)]
pub struct Permanent<T>(T);

impl<T> Permanent<T> {
    /// The wrapped value.
    pub closed spec fn value(self) -> T {
        self.0
    }

    /// Wraps a value that will stay available permanently.
    pub fn new(value: T) -> (r: Self)
        ensures
            r.value() == value,
    {
        Permanent(value)
    }

    /// Hands the wrapped value out.
    pub fn get(self) -> (r: T)
        ensures
            r == self.value(),
    {
        self.0
    }
}

} // verus!
