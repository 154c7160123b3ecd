//! The order of the parts.
use vstd::prelude::*;
use vstd::std_specs::cmp::{PartialOrdIs, PartialOrdSpec};

verus! {

/// `a` stands before `b` in the order of `T`, or beside it.
pub open spec fn at_most<T: Ord>(a: T, b: T) -> bool {
    a.is_le(&b)
}

/// The comparisons of `T` answer as `partial_cmp_spec` says, any two values
/// can be compared, and the order is transitive.
pub open spec fn total_order<T: Ord>() -> bool {
    &&& T::obeys_partial_cmp_spec()
    &&& forall|a: T, b: T| #[trigger] at_most(a, b) || at_most(b, a)
    &&& forall|a: T, b: T, c: T| #[trigger] at_most(a, b) && #[trigger] at_most(b, c) ==> at_most(a, c)
}

/// Whether `a` stands before or beside `b`.
pub fn is_at_most<T: Ord>(a: &T, b: &T) -> (r: bool)
    requires
        total_order::<T>(),
    ensures
        r == at_most(*a, *b),
{
    *a <= *b
}

} // verus!
