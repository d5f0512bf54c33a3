use vstd::prelude::*;
use vstd::std_specs::cmp::PartialOrdSpec;
use core::cmp::Ordering;
use crate::scalar::obeys_arithmetic;
use crate::scalar::zero_spec;
use crate::scalar::Scalar;

verus! {

/// The comparisons of `A` return what `partial_cmp_spec` says.
pub open spec fn obeys_order<A: PartialOrd>() -> bool {
    A::obeys_partial_cmp_spec()
}

/// `a` is greater than `b`.
pub open spec fn is_greater<A: PartialOrd>(a: A, b: A) -> bool {
    a.partial_cmp_spec(&b) == Some(Ordering::Greater)
}

/// The operators of `A` compute what their specifications say, and so do
/// its comparisons.
pub open spec fn obeys_ordered_arithmetic<A: Scalar>() -> bool {
    obeys_arithmetic::<A>() && obeys_order::<A>()
}

/// `a` is greater than the additive identity.
pub open spec fn is_positive<A: Scalar>(a: A) -> bool {
    is_greater(a, zero_spec::<A>())
}

/// Says whether `a` is greater than `b`.
pub fn greater<A: PartialOrd>(a: &A, b: &A) -> (answer: bool)
    ensures
        obeys_order::<A>() ==> answer == is_greater(*a, *b),
{
    *a > *b
}

} // verus!
