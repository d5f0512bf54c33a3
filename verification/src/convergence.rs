use vstd::prelude::*;
use vstd::std_specs::cmp::PartialOrdSpec;
use vstd::std_specs::ops::DivSpec;
use vstd::std_specs::ops::SubSpec;
use core::cmp::Ordering;
use crate::scalar::is_magnitude_of;
use crate::scalar::magnitude_of;
use crate::scalar::obeys_arithmetic;
use crate::scalar::total_arithmetic;
use crate::scalar::Scalar;

verus! {

/// What a fit does after a pass.
#[derive(Clone, Copy, Debug, PartialEq, Eq, Structural)]
pub enum Progress {
    /// The mean cost changed by less than the threshold: the fit stops.
    Converged,
    /// The passes are used up: the fit stops.
    Exhausted,
    /// The fit goes on with another pass.
    Continue,
}

/// What a fit does after a pass, given whether the change of the mean cost
/// is below the threshold and how many passes were completed before.
pub open spec fn progress_spec(below: bool, iteration_count: usize, max_iteration_count: usize) -> Progress {
    if below {
        Progress::Converged
    } else if iteration_count >= max_iteration_count {
        Progress::Exhausted
    } else {
        Progress::Continue
    }
}

/// Decides what a fit does after a pass: it stops if the mean cost changed
/// by less than `eps`, it stops if `max_iteration_count` passes were
/// completed before this one, and else it goes on.
pub fn progress<T: PartialOrd>(
    cost_change: &T,
    eps: &T,
    iteration_count: usize,
    max_iteration_count: usize,
) -> (next: Progress)
    ensures
        next != Progress::Converged ==> next == progress_spec(
            false,
            iteration_count,
            max_iteration_count,
        ),
        T::obeys_partial_cmp_spec() ==> next == progress_spec(
            cost_change.partial_cmp_spec(eps) == Some(Ordering::Less),
            iteration_count,
            max_iteration_count,
        ),
{
    if *cost_change < *eps {
        Progress::Converged
    } else if iteration_count >= max_iteration_count {
        Progress::Exhausted
    } else {
        Progress::Continue
    }
}

/// What a fit does after a pass of which `magnitude` is the absolute
/// change of the cost: `progress_spec` for whether the quotient of
/// `magnitude` and `examples` is less than `eps`.
pub open spec fn after_change_spec<T: Scalar + PartialOrd>(
    magnitude: T,
    examples: T,
    eps: T,
    iteration_count: usize,
    max_iteration_count: usize,
) -> Progress {
    progress_spec(
        magnitude.div_spec(examples).partial_cmp_spec(&eps) == Some(Ordering::Less),
        iteration_count,
        max_iteration_count,
    )
}

/// Decides what a fit does after a pass of which `magnitude` is the
/// absolute change of the cost: the change of the mean cost is `magnitude`
/// divided by the number of examples, and `progress` decides by it.
pub fn after_change<T>(
    magnitude: T,
    examples: T,
    eps: &T,
    iteration_count: usize,
    max_iteration_count: usize,
) -> (next: Progress) where T: Scalar + PartialOrd
    requires
        magnitude.div_req(examples),
    ensures
        next != Progress::Converged ==> next == progress_spec(
            false,
            iteration_count,
            max_iteration_count,
        ),
        T::obeys_div_spec() && T::obeys_partial_cmp_spec() ==> next == after_change_spec(
            magnitude,
            examples,
            *eps,
            iteration_count,
            max_iteration_count,
        ),
{
    let cost_change = magnitude / examples;
    progress(&cost_change, eps, iteration_count, max_iteration_count)
}

/// Decides what a fit does after a pass that has brought the cost from
/// `previous_cost` to `cost`: the change of the mean cost over the
/// `examples` is the absolute value of the difference of the two, divided
/// by the number of examples, and `progress` decides by it.
///
/// The absolute value is what `num_traits::Float::abs` returns for the
/// difference; `after_change` says what is decided for each value of it.
pub fn after_pass<T>(
    previous_cost: T,
    cost: T,
    examples: T,
    eps: &T,
    iteration_count: usize,
    max_iteration_count: usize,
) -> (next: Progress) where T: Scalar + PartialOrd + num_traits::Float
    requires
        total_arithmetic::<T>(),
    ensures
        next != Progress::Converged ==> next == progress_spec(
            false,
            iteration_count,
            max_iteration_count,
        ),
        obeys_arithmetic::<T>() && T::obeys_partial_cmp_spec() ==> exists|magnitude: T|
            {
                &&& #[trigger] is_magnitude_of(previous_cost.sub_spec(cost), magnitude)
                &&& next == after_change_spec(
                    magnitude,
                    examples,
                    *eps,
                    iteration_count,
                    max_iteration_count,
                )
            },
{
    let magnitude = magnitude_of(previous_cost - cost);
    after_change(magnitude, examples, eps, iteration_count, max_iteration_count)
}

} // verus!
