use vstd::prelude::*;
use vstd::std_specs::ops::AddSpec;
use vstd::std_specs::ops::DivSpec;
use vstd::std_specs::ops::MulSpec;
use vstd::std_specs::ops::SubSpec;
use core::ops::Add;
use core::ops::Div;
use core::ops::Mul;
use core::ops::Sub;

verus! {

/// A type of numbers: one that can be copied, added, subtracted,
/// multiplied, divided and compared. Every such type is a `Scalar`.
pub trait Scalar: Copy + Add<Output = Self> + Sub<Output = Self> + Mul<Output = Self> + Div<
    Output = Self,
> + PartialOrd + 'static {

}

impl<A> Scalar for A where
    A: Copy + Add<Output = A> + Sub<Output = A> + Mul<Output = A> + Div<Output = A> + PartialOrd
        + 'static,
 {

}

/// The four operators of `A` return what `add_spec`, `sub_spec`, `mul_spec`
/// and `div_spec` say.
pub open spec fn obeys_arithmetic<A: Scalar>() -> bool {
    &&& A::obeys_add_spec()
    &&& A::obeys_sub_spec()
    &&& A::obeys_mul_spec()
    &&& A::obeys_div_spec()
}

/// The four operators of `A` accept every pair of operands, as those of a
/// floating-point type do.
pub open spec fn total_arithmetic<A: Scalar>() -> bool {
    forall|x: A, y: A|
        #![trigger x.add_req(y)]
        #![trigger x.sub_req(y)]
        #![trigger x.mul_req(y)]
        #![trigger x.div_req(y)]
        x.add_req(y) && x.sub_req(y) && x.mul_req(y) && x.div_req(y)
}

/// `z` is neutral for the addition of `A`, on both sides.
pub open spec fn is_additive_identity<A: AddSpec<Output = A>>(z: A) -> bool {
    forall|a: A|
        #![trigger a.add_spec(z)]
        #![trigger z.add_spec(a)]
        a.add_spec(z) == a && z.add_spec(a) == a
}

/// `u` is neutral for the multiplication of `A`, on both sides.
pub open spec fn is_multiplicative_identity<A: MulSpec<Output = A>>(u: A) -> bool {
    forall|a: A|
        #![trigger a.mul_spec(u)]
        #![trigger u.mul_spec(a)]
        a.mul_spec(u) == a && u.mul_spec(a) == a
}

/// The additive identity of `A`, where there is one.
pub open spec fn zero_spec<A: AddSpec<Output = A>>() -> A {
    choose|z: A| is_additive_identity(z)
}

/// The multiplicative identity of `A`, where there is one.
pub open spec fn one_spec<A: MulSpec<Output = A>>() -> A {
    choose|u: A| is_multiplicative_identity(u)
}

/// A type has at most one additive identity.
pub proof fn lemma_additive_identity_unique<A: AddSpec<Output = A>>(z: A)
    requires
        is_additive_identity(z),
    ensures
        z == zero_spec::<A>(),
{
    let other = zero_spec::<A>();
    assert(is_additive_identity(other));
    assert(z.add_spec(other) == z);
    assert(z.add_spec(other) == other);
}

/// A type has at most one multiplicative identity.
pub proof fn lemma_multiplicative_identity_unique<A: MulSpec<Output = A>>(u: A)
    requires
        is_multiplicative_identity(u),
    ensures
        u == one_spec::<A>(),
{
    let other = one_spec::<A>();
    assert(is_multiplicative_identity(other));
    assert(u.mul_spec(other) == u);
    assert(u.mul_spec(other) == other);
}

/// Calls `num_traits::Zero::zero`, which returns the additive identity of
/// `A`. The contract repeats the laws that the trait documents (`a + 0 = a`
/// and `0 + a = a` for every `a`) for the types whose `+` returns what
/// `add_spec` says.
#[verifier::external_body]
pub(crate) fn zero_of<A: num_traits::Zero + core::ops::Add<Output = A>>() -> (z: A)
    ensures
        A::obeys_add_spec() ==> is_additive_identity(z),
{
    A::zero()
}

/// Calls `num_traits::One::one`, which returns the multiplicative identity of
/// `A`. The contract repeats the laws that the trait documents (`a * 1 = a`
/// and `1 * a = a` for every `a`) for the types whose `*` returns what
/// `mul_spec` says.
#[verifier::external_body]
pub(crate) fn one_of<A: num_traits::One + core::ops::Mul<Output = A>>() -> (u: A)
    ensures
        A::obeys_mul_spec() ==> is_multiplicative_identity(u),
{
    A::one()
}

/// Calls `num_traits::Float::sqrt`. Nothing is claimed of the result.
#[verifier::external_body]
pub(crate) fn sqrt_of<A: num_traits::Float>(x: A) -> A {
    x.sqrt()
}

/// Calls `num_traits::Float::abs`. Nothing is claimed of the result.
#[verifier::external_body]
pub(crate) fn abs_of<A: num_traits::Float>(x: A) -> A {
    x.abs()
}

/// `magnitude` is something that `num_traits::Float::abs` returns for `x`.
pub closed spec fn is_magnitude_of<A: num_traits::Float>(x: A, magnitude: A) -> bool {
    call_ensures(abs_of::<A>, (x,), magnitude)
}

/// Applies `f` to `x`.
fn apply<A, B, F: Fn(A) -> B>(f: F, x: A) -> (r: B)
    requires
        call_requires(f, (x,)),
    ensures
        call_ensures(f, (x,), r),
{
    f(x)
}

/// The absolute value of `x`, as `num_traits::Float::abs` returns it.
pub(crate) fn magnitude_of<A: num_traits::Float>(x: A) -> (magnitude: A)
    ensures
        is_magnitude_of(x, magnitude),
{
    apply(abs_of::<A>, x)
}

/// Calls `num_traits::NumCast::from` on a count, which returns `None` where
/// `A` cannot represent it. Nothing more is claimed of the result.
#[verifier::external_body]
pub(crate) fn cast_usize<A: num_traits::NumCast>(n: usize) -> Option<A> {
    A::from(n)
}

/// `cast` is something that `num_traits::NumCast::from` returns for the
/// count `n`.
pub closed spec fn is_cast_of<A: num_traits::NumCast>(n: usize, cast: Option<A>) -> bool {
    call_ensures(cast_usize::<A>, (n,), cast)
}

/// The count `n` as a value of `A`, as `num_traits::NumCast::from` returns
/// it: `None` where `A` cannot represent it.
pub(crate) fn count_as<A: num_traits::NumCast>(n: usize) -> (cast: Option<A>)
    ensures
        is_cast_of(n, cast),
{
    apply(cast_usize::<A>, n)
}

/// Calls `num_traits::FloatConst::E`, which returns Euler's number.
/// Nothing is claimed of the result.
#[verifier::external_body]
pub(crate) fn e_of<A: num_traits::FloatConst>() -> A {
    A::E()
}

/// Calls `num_traits::Float::powf`. Nothing is claimed of the result.
#[verifier::external_body]
pub(crate) fn powf_of<A: num_traits::Float>(base: A, exponent: A) -> A {
    base.powf(exponent)
}

} // verus!
