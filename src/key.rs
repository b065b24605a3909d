//! Seals the key types of the symbol maps.

use vstd::prelude::*;

verus! {

/// Implemented only by types whose equality is identity of values.
pub trait Sealed {}

impl Sealed for char {}
impl Sealed for u8 {}
impl Sealed for u16 {}
impl Sealed for u32 {}

} // verus!
