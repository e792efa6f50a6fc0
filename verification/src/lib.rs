//! Typed, persistent collections layered over a byte-oriented key-value store.

pub mod codec;
pub mod error;
pub mod ir;
pub mod key;
pub mod methods;
pub mod model;
pub mod stores;
pub mod traits;
pub mod wrappers;
