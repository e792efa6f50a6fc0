//! Stores that come with the library.

pub mod memory;
