use vstd::prelude::*;

verus! {

/// Keeps the set of counter widths closed: only this crate can implement it.
pub trait Sealed {
}

impl Sealed for u8 {
}

impl Sealed for u16 {
}

impl Sealed for usize {
}

} // verus!
