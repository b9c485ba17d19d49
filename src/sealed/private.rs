use vstd::prelude::*;

verus! {

/// Implemented only inside this crate, so that nothing outside can implement `UiThread`.
pub trait Sealed {}

impl Sealed for super::UiThreadMarker {}

impl Sealed for super::UiThreadToken {}

} // verus!
