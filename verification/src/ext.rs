use core::ops::Range;
use vstd::prelude::*;

verus! {

/// Relies on the standard library's derived `Clone` for `Range`, which
/// clones the two bounds. For an arbitrary bound type nothing is promised
/// of the result.
pub assume_specification<Idx: Clone>[ <Range<Idx> as Clone>::clone ](r: &Range<Idx>) -> Range<
    Idx,
>;

} // verus!
