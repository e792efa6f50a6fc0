//! What can go wrong in an operation on a typed store.

use vstd::prelude::*;

verus! {

/// The failure of one operation. No operation commits bytes after it has met
/// one of the first three; a backend error is handed on as it came.
#[derive(Debug)]
pub enum Error<E> {
    /// The key has no encoding.
    SerializingKey,
    /// The value has no encoding.
    SerializingValue,
    /// Stored bytes do not decode as a value of the expected type.
    DeSerializing,
    /// The backend failed.
    Backend(E),
}

/// A compare-and-swap found another value than the expected one.
#[derive(Debug)]
pub struct CompareAndSwapError<A> {
    /// The value that was found in place of the expected one.
    pub actual: A,
}

} // verus!
