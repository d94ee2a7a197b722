//! Conversion between `Ordering` and integer three-way results.
use std::cmp::Ordering;
use vstd::prelude::*;

verus! {

/// The integer (-1, 0, 1) that an `Ordering` stands for.
pub open spec fn ordering_sign(o: Ordering) -> int {
    match o {
        Ordering::Less => -1,
        Ordering::Equal => 0,
        Ordering::Greater => 1,
    }
}

/// The `Ordering` that an integer three-way result stands for.
pub open spec fn ordering_for(s: int) -> Ordering {
    if s < 0 {
        Ordering::Less
    } else if s == 0 {
        Ordering::Equal
    } else {
        Ordering::Greater
    }
}

/// The `Ordering` for an integer three-way result.
pub fn ordering_of(s: i8) -> (o: Ordering)
    requires
        s == -1 || s == 0 || s == 1,
    ensures
        ordering_sign(o) == s,
{
    if s < 0 {
        Ordering::Less
    } else if s == 0 {
        Ordering::Equal
    } else {
        Ordering::Greater
    }
}

} // verus!
