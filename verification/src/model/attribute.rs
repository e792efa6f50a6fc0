//! The options a schema is declared with.

use vstd::prelude::*;

verus! {

/// The backend that a schema names.
#[derive(Clone, Copy, Debug, PartialEq, Eq, Structural)]
pub enum BackendOption {
    /// The sled database.
    Sled,
    /// Any store that implements the capabilities the fields need.
    Trait,
    /// A store without any extra capability.
    Test,
}

/// One option of a schema.
#[derive(Clone, Copy, Debug, PartialEq, Eq, Structural)]
pub enum Options {
    Backend(BackendOption),
}

} // verus!
