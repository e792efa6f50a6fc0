//! The capabilities a backend offers, and the typed layer built on them.

pub mod byte_store;
pub mod data_store;
