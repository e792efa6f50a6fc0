//! The typed views of one field each: single values, a sequence, a map.

pub mod map;
pub mod scalar;
pub mod sequence;
