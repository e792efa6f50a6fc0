//! The methods that are made for single-value fields.

pub mod default;
