use vstd::prelude::*;
use vstd::std_specs::cmp::OrdSpec;
use std::cmp::Ordering;

verus! {

/// Whether `a` is ordered strictly before `b`.
pub open spec fn precedes<T: Ord>(a: T, b: T) -> bool {
    a.cmp_spec(&b) == Ordering::Less
}

/// The lesser of `a` and `b`; `a` where neither is ordered before the other.
pub open spec fn lesser<T: Ord>(a: T, b: T) -> T {
    if precedes(b, a) {
        b
    } else {
        a
    }
}

/// The greater of `a` and `b`; `b` where neither is ordered before the other.
pub open spec fn greater<T: Ord>(a: T, b: T) -> T {
    if precedes(b, a) {
        a
    } else {
        b
    }
}

/// Folds `rhs` into a running minimum that is `None` until a first value has been seen.
pub fn min_opt<T: Ord>(lhs: Option<T>, rhs: T) -> (out: Option<T>)
    ensures
        out is Some,
        lhs is None ==> out == Some(rhs),
        lhs is Some && T::obeys_cmp_spec() ==> out == Some(lesser(lhs->0, rhs)),
{
    match lhs {
        Some(lhs) => Some(lhs.min(rhs)),
        None => Some(rhs),
    }
}

/// Folds `rhs` into a running maximum that is `None` until a first value has been seen.
pub fn max_opt<T: Ord>(lhs: Option<T>, rhs: T) -> (out: Option<T>)
    ensures
        out is Some,
        lhs is None ==> out == Some(rhs),
        lhs is Some && T::obeys_cmp_spec() ==> out == Some(greater(lhs->0, rhs)),
{
    match lhs {
        Some(lhs) => Some(lhs.max(rhs)),
        None => Some(rhs),
    }
}

} // verus!
