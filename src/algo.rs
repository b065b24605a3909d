//! Concrete check digit algorithms.

pub mod ref_luhn;
