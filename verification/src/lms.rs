use vstd::prelude::*;
use vstd::std_specs::ops::AddSpec;
use vstd::std_specs::ops::DivSpec;
use vstd::std_specs::ops::MulSpec;
use vstd::std_specs::ops::NegSpec;
use vstd::std_specs::ops::SubSpec;
use core::ops::Neg;
use crate::arithmetic::scaled_add;
use crate::arithmetic::scaled_add_defined;
use crate::arithmetic::scaled_add_spec;
use crate::array_base::Array1;
use crate::array_base::ArrayBase;
use crate::array_base::ArrayView1;
use crate::array_base::ArrayView2;
use crate::convergence::after_pass;
use crate::convergence::Progress;
use crate::array_base::Ix2;
use crate::array_base::NDArrayBase;
use crate::dot::Dot;
use crate::layout::index1;
use crate::layout::MemoryLayout;
use crate::layout::RowMajor;
use crate::matrix::dot_defined;
use crate::matrix::dot_spec;
use crate::layout::lemma_linear_index_of_one;
use crate::ndstorage::NDStorage;
use crate::ownership::Ownership;
use crate::scalar::count_as;
use crate::scalar::is_cast_of;
use crate::scalar::is_additive_identity;
use crate::scalar::lemma_additive_identity_unique;
use crate::scalar::lemma_multiplicative_identity_unique;
use crate::scalar::obeys_arithmetic;
use crate::scalar::one_of;
use crate::scalar::one_spec;
use crate::scalar::total_arithmetic;
use crate::scalar::zero_of;
use crate::scalar::zero_spec;
use crate::scalar::Scalar;

verus! {

/// Why a least-mean-squares fit was given up.
#[derive(Clone, Copy, Debug, PartialEq, Eq, Structural)]
pub enum LMSError {
    /// The coefficients to start from are not as many as the features.
    InvalidTheta,
    /// A number could not be converted to the element type.
    FailedCastToT,
}

/// How a fit is to be run; what is left out is filled in by `fill_missing_settings`.
pub struct LMSSettings<T: 'static> {
    /// The number of passes over the examples after which the fit stops.
    pub max_iteration_count: Option<usize>,
    /// The factor by which the coefficients follow the gradient.
    pub learning_rate: Option<T>,
    /// The change of the mean cost below which the fit stops.
    pub eps: Option<T>,
    /// The coefficients to start from.
    pub starting_theta: Option<Array1<T>>,
}

/// How a fit is to be run.
pub struct LMSSettingsFilled<T: 'static> {
    /// The number of passes over the examples after which the fit stops.
    pub max_iteration_count: usize,
    /// The factor by which the coefficients follow the gradient.
    pub learning_rate: T,
    /// The change of the mean cost below which the fit stops.
    pub eps: T,
    /// The coefficients to start from.
    pub starting_theta: Array1<T>,
}

/// What a fit found.
pub struct LMSResult<T: 'static> {
    /// The coefficients.
    pub theta: Array1<T>,
    /// The number of passes over the examples that were completed before the last one.
    pub iteration_count: usize,
}

/// The number of passes after which a fit stops where none is given.
pub const DEFAULT_MAX_ITERATION_COUNT: usize = 10000;

/// `filled` is `settings` with what it leaves out filled in: ten thousand
/// passes, the learning rate `rate`, the threshold `eps`, and coefficients
/// that are all the additive identity. The threshold is filled in from the
/// learning rate of `settings` where that is given.
pub open spec fn is_filled_from<T: core::ops::Add<Output = T>>(
    settings: Option<LMSSettings<T>>,
    theta_dimensions: usize,
    rate: T,
    eps: T,
    filled: LMSSettingsFilled<T>,
) -> bool {
    let given = match settings {
        Some(given) => given,
        None => LMSSettings {
            max_iteration_count: Some(DEFAULT_MAX_ITERATION_COUNT),
            learning_rate: Some(rate),
            eps: Some(eps),
            starting_theta: None,
        },
    };
    &&& filled.starting_theta.wf()
    &&& filled.max_iteration_count == match given.max_iteration_count {
        Some(count) => count,
        None => DEFAULT_MAX_ITERATION_COUNT,
    }
    &&& filled.learning_rate == match given.learning_rate {
        Some(given_rate) => given_rate,
        None => rate,
    }
    &&& filled.eps == match given.learning_rate {
        Some(given_rate) => given_rate,
        None => eps,
    }
    &&& match given.starting_theta {
        Some(theta) => filled.starting_theta == theta,
        None => {
            &&& filled.starting_theta.dims() == seq![theta_dimensions]
            &&& T::obeys_add_spec() ==> forall|i: int|
                0 <= i < theta_dimensions ==> is_additive_identity(
                    #[trigger] filled.starting_theta.elements()[i],
                )
        },
    }
}

/// Fills in what `settings` leaves out, as `is_filled_from` says, with the
/// given defaults for the learning rate and the threshold.
///
/// A default that could not be had (`None`) makes the fit fail, whether it
/// is needed or not.
pub fn fill_missing_settings_with<T>(
    settings: Option<LMSSettings<T>>,
    theta_dimensions: usize,
    default_learning_rate: Option<T>,
    default_eps: Option<T>,
) -> (result: Result<LMSSettingsFilled<T>, LMSError>) where
    T: Copy + num_traits::Zero + core::ops::Add<Output = T>,

    requires
        settings matches Some(given) ==> (given.starting_theta matches Some(theta) ==> theta.wf()),
    ensures
        result is Err <==> default_learning_rate is None || default_eps is None,
        result matches Err(error) ==> error == LMSError::FailedCastToT,
        result matches Ok(filled) ==> is_filled_from(
            settings,
            theta_dimensions,
            default_learning_rate->Some_0,
            default_eps->Some_0,
            filled,
        ),
{
    let (rate, eps) = match (default_learning_rate, default_eps) {
        (Some(rate), Some(eps)) => (rate, eps),
        _ => {
            return Err(LMSError::FailedCastToT);
        },
    };
    let settings = match settings {
        Some(given) => given,
        None => LMSSettings {
            max_iteration_count: Some(DEFAULT_MAX_ITERATION_COUNT),
            learning_rate: Some(rate),
            eps: Some(eps),
            starting_theta: None,
        },
    };
    let shape = [theta_dimensions];
    proof {
        crate::layout::lemma_linear_index_of_one(
            crate::layout::LayoutType::RowMajor,
            shape@,
            crate::layout::index1(0),
        );
    }
    let starting_theta = match settings.starting_theta {
        Some(theta) => theta,
        None => {
            let zeros = Array1::zeros(shape);
            assert(zeros.dims() =~= seq![theta_dimensions]);
            zeros
        },
    };
    Ok(
        LMSSettingsFilled {
            max_iteration_count: match settings.max_iteration_count {
                Some(count) => count,
                None => DEFAULT_MAX_ITERATION_COUNT,
            },
            learning_rate: match settings.learning_rate {
                Some(given) => given,
                None => rate,
            },
            eps: match settings.learning_rate {
                Some(given) => given,
                None => eps,
            },
            starting_theta,
        },
    )
}

/// `default` is the multiplicative identity divided by what
/// `num_traits::NumCast::from` returned for the count `n`.
pub open spec fn is_default_of<T: Scalar + num_traits::NumCast>(n: usize, default: T) -> bool {
    exists|cast: T| #[trigger]
        is_cast_of(n, Some(cast)) && (obeys_arithmetic::<T>() ==> default == one_spec::<T>().div_spec(
            cast,
        ))
}

/// Fills in what `settings` leaves out, as `is_filled_from` says, with one
/// thousandth for the learning rate and one hundred-thousandth for the
/// threshold.
///
/// The fit fails only if `num_traits::NumCast::from` returned `None` for a
/// thousand or for a hundred thousand.
pub fn fill_missing_settings<T>(settings: Option<LMSSettings<T>>, theta_dimensions: usize) -> (result:
    Result<LMSSettingsFilled<T>, LMSError>) where
    T: Scalar + num_traits::Zero + num_traits::One + num_traits::NumCast,

    requires
        settings matches Some(given) ==> (given.starting_theta matches Some(theta) ==> theta.wf()),
        crate::scalar::total_arithmetic::<T>(),
    ensures
        result matches Err(error) ==> error == LMSError::FailedCastToT,
        result is Err ==> is_cast_of::<T>(1000, None) || is_cast_of::<T>(100000, None),
        result matches Ok(filled) ==> exists|rate: T, eps: T|
            {
                &&& #[trigger] is_filled_from(settings, theta_dimensions, rate, eps, filled)
                &&& is_default_of(1000, rate)
                &&& is_default_of(100000, eps)
            },
{
    let one = one_of::<T>();
    proof {
        if obeys_arithmetic::<T>() {
            lemma_multiplicative_identity_unique(one);
        }
    }
    let thousand = count_as::<T>(1000);
    let rate = match thousand {
        Some(thousand) => Some(one / thousand),
        None => None,
    };
    let many = count_as::<T>(100000);
    let eps = match many {
        Some(many) => Some(one / many),
        None => None,
    };
    let result = fill_missing_settings_with(settings, theta_dimensions, rate, eps);
    proof {
        if result is Ok {
            assert(is_cast_of(1000, Some(thousand->Some_0)));
            assert(is_cast_of(100000, Some(many->Some_0)));
            assert(is_default_of(1000, rate->Some_0));
            assert(is_default_of(100000, eps->Some_0));
            assert(is_filled_from(
                settings,
                theta_dimensions,
                rate->Some_0,
                eps->Some_0,
                result->Ok_0,
            ));
        }
    }
    result
}

/// How far the weighted prediction for one example is from its target,
/// in a pass over all examples: `weight * (row . theta) - target`.
pub open spec fn batch_error<T: Scalar>(weight: T, row: Seq<T>, theta: Seq<T>, target: T) -> T {
    weight.mul_spec(dot_spec(row, theta)).sub_spec(target)
}

/// The sum of the squared errors of the first `k` examples, added up from
/// the additive identity in the order of the examples.
pub open spec fn batch_cost<T: Scalar>(
    x: Seq<Seq<T>>,
    y: Seq<T>,
    weights: Seq<T>,
    theta: Seq<T>,
    k: int,
) -> T
    decreases k,
{
    if k <= 0 {
        zero_spec::<T>()
    } else {
        let error = batch_error(weights[k - 1], x[k - 1], theta, y[k - 1]);
        batch_cost(x, y, weights, theta, k - 1).add_spec(error.mul_spec(error))
    }
}

/// The gradient that the first `k` examples add up to: from the vector of
/// additive identities, each example adds its error times its features.
pub open spec fn batch_gradient<T: Scalar>(
    x: Seq<Seq<T>>,
    y: Seq<T>,
    weights: Seq<T>,
    theta: Seq<T>,
    k: int,
) -> Seq<T>
    decreases k,
{
    if k <= 0 {
        Seq::new(theta.len(), |j: int| zero_spec::<T>())
    } else {
        scaled_add_spec(
            batch_error(weights[k - 1], x[k - 1], theta, y[k - 1]),
            batch_gradient(x, y, weights, theta, k - 1),
            x[k - 1],
        )
    }
}

/// The coefficients after a step against the gradient:
/// `theta[j] - rate * gradient[j]`.
pub open spec fn descend<T: Scalar>(theta: Seq<T>, rate: T, gradient: Seq<T>) -> Seq<T> {
    Seq::new(theta.len(), |j: int| theta[j].sub_spec(rate.mul_spec(gradient[j])))
}

/// What one example adds to a pass over all examples is something that
/// `T` can compute: its error, the square of its error on top of the cost
/// so far, and its error times its features on top of the gradient so far.
pub open spec fn batch_example_defined<T: Scalar>(
    weight: T,
    row: Seq<T>,
    theta: Seq<T>,
    target: T,
    cost: T,
    gradient: Seq<T>,
) -> bool {
    let prediction = dot_spec(row, theta);
    let error = batch_error(weight, row, theta, target);
    &&& dot_defined(row, theta)
    &&& weight.mul_req(prediction)
    &&& weight.mul_spec(prediction).sub_req(target)
    &&& error.mul_req(error)
    &&& cost.add_req(error.mul_spec(error))
    &&& scaled_add_defined(error, gradient, row)
}

/// What the first `k` examples add to a pass over all examples is
/// something that `T` can compute.
pub open spec fn batch_defined<T: Scalar>(
    x: Seq<Seq<T>>,
    y: Seq<T>,
    weights: Seq<T>,
    theta: Seq<T>,
    k: int,
) -> bool
    decreases k,
{
    if k <= 0 {
        true
    } else {
        &&& batch_defined(x, y, weights, theta, k - 1)
        &&& batch_example_defined(
            weights[k - 1],
            x[k - 1],
            theta,
            y[k - 1],
            batch_cost(x, y, weights, theta, k - 1),
            batch_gradient(x, y, weights, theta, k - 1),
        )
    }
}

/// The step against the gradient is something that `T` can compute.
pub open spec fn descend_defined<T: Scalar>(theta: Seq<T>, rate: T, gradient: Seq<T>) -> bool {
    forall|j: int|
        0 <= j < theta.len() ==> #[trigger] rate.mul_req(gradient[j]) && theta[j].sub_req(
            rate.mul_spec(gradient[j]),
        )
}

/// A pass of batch gradient descent can be computed: either the operators
/// of `T` accept all operands, or `obeys_arithmetic` holds and no step of
/// the pass fails.
pub open spec fn batch_computable<T: Scalar>(
    x: Seq<Seq<T>>,
    y: Seq<T>,
    weights: Seq<T>,
    theta: Seq<T>,
    rate: T,
) -> bool {
    ||| total_arithmetic::<T>()
    ||| {
        &&& obeys_arithmetic::<T>()
        &&& batch_defined(x, y, weights, theta, x.len() as int)
        &&& descend_defined(theta, rate, batch_gradient(x, y, weights, theta, x.len() as int))
    }
}

/// What can be computed for all examples can be computed for the first of them.
pub proof fn lemma_batch_defined_prefix<T: Scalar>(
    x: Seq<Seq<T>>,
    y: Seq<T>,
    weights: Seq<T>,
    theta: Seq<T>,
    k: int,
    n: int,
)
    requires
        0 <= k <= n,
        batch_defined(x, y, weights, theta, n),
    ensures
        batch_defined(x, y, weights, theta, k),
    decreases n - k,
{
    if k < n {
        lemma_batch_defined_prefix(x, y, weights, theta, k, n - 1);
    }
}

/// One pass of batch gradient descent: the gradient of all examples is
/// added up for the coefficients `theta`, and the coefficients take one
/// step against it. Returns the new coefficients and the cost of the old.
pub fn batch_update<T, O1, O2, O3, L2, L3>(
    x: &ArrayBase<NDStorage<'_, T, O1, RowMajor, 2>, Ix2>,
    y: &NDArrayBase<'_, T, O2, L2, 1>,
    theta: &NDArrayBase<'_, T, O3, L3, 1>,
    rate: T,
    weights: &Vec<T>,
) -> (result: (Array1<T>, T)) where
    T: Scalar + num_traits::Zero,
    O1: Ownership,
    O2: Ownership,
    O3: Ownership,
    L2: MemoryLayout,
    L3: MemoryLayout,

    requires
        x.wf(),
        y.wf(),
        theta.wf(),
        y.dims()[0] == x.dims()[0],
        theta.dims()[0] == x.dims()[1],
        weights@.len() == x.dims()[0],
        batch_computable(x.rows(), y.elements(), weights@, theta.elements(), rate),
    ensures
        result.0.wf(),
        result.0.dims() == seq![x.dims()[1]],
        obeys_arithmetic::<T>() ==> result.0.elements() == descend(
            theta.elements(),
            rate,
            batch_gradient(
                x.rows(),
                y.elements(),
                weights@,
                theta.elements(),
                x.dims()[0] as int,
            ),
        ),
        obeys_arithmetic::<T>() ==> result.1 == batch_cost(
            x.rows(),
            y.elements(),
            weights@,
            theta.elements(),
            x.dims()[0] as int,
        ),
{
    let examples = x.nrows();
    let features = x.ncols();
    let shape = [features];
    proof {
        lemma_linear_index_of_one(RowMajor::layout_type(), shape@, index1(0));
        lemma_linear_index_of_one(L2::layout_type(), y.dims(), index1(0));
        lemma_linear_index_of_one(L3::layout_type(), theta.dims(), index1(0));
        x.lemma_rows();
    }
    let mut gradients = Array1::<T>::zeros(shape);
    let zero = zero_of::<T>();
    let mut cost = zero;
    proof {
        if obeys_arithmetic::<T>() {
            lemma_additive_identity_unique(zero);
            assert forall|j: int| 0 <= j < features implies gradients.elements()[j]
                == zero_spec::<T>() by {
                lemma_additive_identity_unique(gradients.elements()[j]);
            }
            assert(gradients.elements() =~= batch_gradient(
                x.rows(),
                y.elements(),
                weights@,
                theta.elements(),
                0,
            ));
        }
    }
    let mut i: usize = 0;
    while i < examples
        invariant
            i <= examples,
            x.wf(),
            y.wf(),
            theta.wf(),
            gradients.wf(),
            examples == x.dims()[0],
            features == x.dims()[1],
            y.dims() == seq![examples],
            theta.dims() == seq![features],
            theta.elements().len() == features,
            y.elements().len() == examples,
            weights@.len() == examples,
            gradients.elements().len() == features,
            gradients.dims() == seq![features],
            x.rows().len() == examples,
            batch_computable(x.rows(), y.elements(), weights@, theta.elements(), rate),
            obeys_arithmetic::<T>() ==> gradients.elements() == batch_gradient(
                x.rows(),
                y.elements(),
                weights@,
                theta.elements(),
                i as int,
            ),
            obeys_arithmetic::<T>() ==> cost == batch_cost(
                x.rows(),
                y.elements(),
                weights@,
                theta.elements(),
                i as int,
            ),
        decreases examples - i,
    {
        let row = x.row(i);
        proof {
            x.lemma_rows();
            lemma_linear_index_of_one(RowMajor::layout_type(), row.dims(), index1(0));
            lemma_linear_index_of_one(L2::layout_type(), y.dims(), index1(i));
            if !total_arithmetic::<T>() {
                lemma_batch_defined_prefix(
                    x.rows(),
                    y.elements(),
                    weights@,
                    theta.elements(),
                    i + 1,
                    examples as int,
                );
            }
        }
        let prediction = row.dot(theta).unwrap();
        let index = [i];
        assert(index@ == index1(i));
        let error = weights[i] * prediction - y.get(index);
        cost = cost + error * error;
        gradients = scaled_add(error, &gradients, &row);
        i += 1;
    }
    let mut values: Vec<T> = Vec::new();
    let mut j: usize = 0;
    while j < features
        invariant
            j <= features,
            theta.wf(),
            gradients.wf(),
            theta.dims() == seq![features],
            gradients.dims() == seq![features],
            theta.elements().len() == features,
            gradients.elements().len() == features,
            total_arithmetic::<T>() || (obeys_arithmetic::<T>() && descend_defined(
                theta.elements(),
                rate,
                gradients.elements(),
            )),
            values@.len() == j,
            obeys_arithmetic::<T>() ==> values@ == descend(
                theta.elements(),
                rate,
                gradients.elements(),
            ).take(j as int),
        decreases features - j,
    {
        proof {
            lemma_linear_index_of_one(L3::layout_type(), theta.dims(), index1(j));
            lemma_linear_index_of_one(RowMajor::layout_type(), gradients.dims(), index1(j));
            if !total_arithmetic::<T>() {
                assert(rate.mul_req(gradients.elements()[j as int]));
            }
        }
        let index = [j];
        assert(index@ == index1(j));
        let step = rate * gradients.get(index);
        values.push(theta.get(index) - step);
        j += 1;
    }
    proof {
        let stepped = descend(theta.elements(), rate, gradients.elements());
        assert(stepped.take(features as int) == stepped);
    }
    (Array1::from_vec(values), cost)
}

/// How far the prediction for one example is from its target, weighted,
/// in a pass that follows each example at once:
/// `weight * ((row . theta) - target)`.
pub open spec fn stochastic_error<T: Scalar>(weight: T, row: Seq<T>, theta: Seq<T>, target: T) -> T {
    weight.mul_spec(dot_spec(row, theta).sub_spec(target))
}

/// The coefficients after the first `k` examples: each example moves them
/// by minus the learning rate times its error times its features.
pub open spec fn stochastic_theta<T: Scalar + Neg<Output = T>>(
    x: Seq<Seq<T>>,
    y: Seq<T>,
    weights: Seq<T>,
    theta: Seq<T>,
    rate: T,
    k: int,
) -> Seq<T>
    decreases k,
{
    if k <= 0 {
        theta
    } else {
        let before = stochastic_theta(x, y, weights, theta, rate, k - 1);
        let error = stochastic_error(weights[k - 1], x[k - 1], before, y[k - 1]);
        scaled_add_spec(rate.mul_spec(error).neg_spec(), before, x[k - 1])
    }
}

/// The sum of the squared errors of the first `k` examples, each taken with
/// the coefficients that the examples before it have led to.
pub open spec fn stochastic_cost<T: Scalar + Neg<Output = T>>(
    x: Seq<Seq<T>>,
    y: Seq<T>,
    weights: Seq<T>,
    theta: Seq<T>,
    rate: T,
    k: int,
) -> T
    decreases k,
{
    if k <= 0 {
        zero_spec::<T>()
    } else {
        let before = stochastic_theta(x, y, weights, theta, rate, k - 1);
        let error = stochastic_error(weights[k - 1], x[k - 1], before, y[k - 1]);
        stochastic_cost(x, y, weights, theta, rate, k - 1).add_spec(error.mul_spec(error))
    }
}

/// The negation of `T` accepts every operand.
pub open spec fn total_negation<T: Neg<Output = T>>() -> bool {
    forall|x: T| #[trigger] x.neg_req()
}

/// What one example adds to a pass that follows each example at once is
/// something that `T` can compute: its error, the square of its error on
/// top of the cost so far, and the move of the coefficients.
pub open spec fn stochastic_example_defined<T: Scalar + Neg<Output = T>>(
    weight: T,
    row: Seq<T>,
    theta: Seq<T>,
    target: T,
    cost: T,
    rate: T,
) -> bool {
    let prediction = dot_spec(row, theta);
    let error = stochastic_error(weight, row, theta, target);
    &&& dot_defined(row, theta)
    &&& prediction.sub_req(target)
    &&& weight.mul_req(prediction.sub_spec(target))
    &&& error.mul_req(error)
    &&& cost.add_req(error.mul_spec(error))
    &&& rate.mul_req(error)
    &&& rate.mul_spec(error).neg_req()
    &&& scaled_add_defined(rate.mul_spec(error).neg_spec(), theta, row)
}

/// What the first `k` examples add to a pass that follows each example at
/// once is something that `T` can compute.
pub open spec fn stochastic_defined<T: Scalar + Neg<Output = T>>(
    x: Seq<Seq<T>>,
    y: Seq<T>,
    weights: Seq<T>,
    theta: Seq<T>,
    rate: T,
    k: int,
) -> bool
    decreases k,
{
    if k <= 0 {
        true
    } else {
        &&& stochastic_defined(x, y, weights, theta, rate, k - 1)
        &&& stochastic_example_defined(
            weights[k - 1],
            x[k - 1],
            stochastic_theta(x, y, weights, theta, rate, k - 1),
            y[k - 1],
            stochastic_cost(x, y, weights, theta, rate, k - 1),
            rate,
        )
    }
}

/// A pass of stochastic gradient descent can be computed: either the
/// operators of `T` accept all operands, or they return what `add_spec`
/// and its like say and no step of the pass fails.
pub open spec fn stochastic_computable<T: Scalar + Neg<Output = T>>(
    x: Seq<Seq<T>>,
    y: Seq<T>,
    weights: Seq<T>,
    theta: Seq<T>,
    rate: T,
) -> bool {
    ||| total_arithmetic::<T>() && total_negation::<T>()
    ||| {
        &&& obeys_arithmetic::<T>()
        &&& T::obeys_neg_spec()
        &&& stochastic_defined(x, y, weights, theta, rate, x.len() as int)
    }
}

/// What can be computed for all examples can be computed for the first of them.
pub proof fn lemma_stochastic_defined_prefix<T: Scalar + Neg<Output = T>>(
    x: Seq<Seq<T>>,
    y: Seq<T>,
    weights: Seq<T>,
    theta: Seq<T>,
    rate: T,
    k: int,
    n: int,
)
    requires
        0 <= k <= n,
        stochastic_defined(x, y, weights, theta, rate, n),
    ensures
        stochastic_defined(x, y, weights, theta, rate, k),
    decreases n - k,
{
    if k < n {
        lemma_stochastic_defined_prefix(x, y, weights, theta, rate, k, n - 1);
    }
}

/// One pass of stochastic gradient descent: the coefficients follow the
/// examples one after the other. Returns the new coefficients and the cost
/// that the examples added up to on the way.
pub fn stochastic_update<T, O1, O2, O3, L2, L3>(
    x: &ArrayBase<NDStorage<'_, T, O1, RowMajor, 2>, Ix2>,
    y: &NDArrayBase<'_, T, O2, L2, 1>,
    theta: &NDArrayBase<'_, T, O3, L3, 1>,
    rate: T,
    weights: &Vec<T>,
) -> (result: (Array1<T>, T)) where
    T: Scalar + Neg<Output = T> + num_traits::Zero,
    O1: Ownership,
    O2: Ownership,
    O3: Ownership,
    L2: MemoryLayout,
    L3: MemoryLayout,

    requires
        x.wf(),
        y.wf(),
        theta.wf(),
        y.dims()[0] == x.dims()[0],
        theta.dims()[0] == x.dims()[1],
        weights@.len() == x.dims()[0],
        stochastic_computable(x.rows(), y.elements(), weights@, theta.elements(), rate),
    ensures
        result.0.wf(),
        result.0.dims() == seq![x.dims()[1]],
        obeys_arithmetic::<T>() && T::obeys_neg_spec() ==> result.0.elements() == stochastic_theta(
            x.rows(),
            y.elements(),
            weights@,
            theta.elements(),
            rate,
            x.dims()[0] as int,
        ),
        obeys_arithmetic::<T>() && T::obeys_neg_spec() ==> result.1 == stochastic_cost(
            x.rows(),
            y.elements(),
            weights@,
            theta.elements(),
            rate,
            x.dims()[0] as int,
        ),
{
    let examples = x.nrows();
    let features = x.ncols();
    proof {
        lemma_linear_index_of_one(L2::layout_type(), y.dims(), index1(0));
        lemma_linear_index_of_one(L3::layout_type(), theta.dims(), index1(0));
        x.lemma_rows();
    }
    let mut current = Array1::from_vec(theta.to_vec());
    let zero = zero_of::<T>();
    let mut cost = zero;
    proof {
        if obeys_arithmetic::<T>() {
            lemma_additive_identity_unique(zero);
        }
    }
    let mut i: usize = 0;
    while i < examples
        invariant
            i <= examples,
            x.wf(),
            y.wf(),
            current.wf(),
            examples == x.dims()[0],
            features == x.dims()[1],
            y.dims() == seq![examples],
            y.elements().len() == examples,
            weights@.len() == examples,
            current.elements().len() == features,
            current.dims() == seq![features],
            x.rows().len() == examples,
            stochastic_computable(x.rows(), y.elements(), weights@, theta.elements(), rate),
            obeys_arithmetic::<T>() && T::obeys_neg_spec() ==> current.elements()
                == stochastic_theta(
                x.rows(),
                y.elements(),
                weights@,
                theta.elements(),
                rate,
                i as int,
            ),
            obeys_arithmetic::<T>() && T::obeys_neg_spec() ==> cost == stochastic_cost(
                x.rows(),
                y.elements(),
                weights@,
                theta.elements(),
                rate,
                i as int,
            ),
        decreases examples - i,
    {
        let row = x.row(i);
        proof {
            x.lemma_rows();
            lemma_linear_index_of_one(RowMajor::layout_type(), row.dims(), index1(0));
            lemma_linear_index_of_one(L2::layout_type(), y.dims(), index1(i));
            if !(total_arithmetic::<T>() && total_negation::<T>()) {
                lemma_stochastic_defined_prefix(
                    x.rows(),
                    y.elements(),
                    weights@,
                    theta.elements(),
                    rate,
                    i + 1,
                    examples as int,
                );
            }
        }
        let prediction = row.dot(&current).unwrap();
        let index = [i];
        assert(index@ == index1(i));
        let error = weights[i] * (prediction - y.get(index));
        cost = cost + error * error;
        let step = (rate * error).neg();
        current = scaled_add(step, &current, &row);
        i += 1;
    }
    (current, cost)
}

/// The weight function accepts every row of a matrix with the given number of columns.
pub open spec fn accepts_rows<T, F: Fn(ArrayView1<T>) -> T>(weight_function: F, columns: usize) -> bool {
    forall|row: ArrayView1<T>|
        row.wf() && row.dims() == seq![columns] ==> call_requires(weight_function, (row,))
}

/// `weight` is something that the weight function returns for a row with
/// the elements `row`.
pub open spec fn is_weight_of<T, F: Fn(ArrayView1<T>) -> T>(
    weight_function: F,
    row: Seq<T>,
    weight: T,
) -> bool {
    exists|view: ArrayView1<T>|
        view.wf() && view.elements() == row && #[trigger] call_ensures(
            weight_function,
            (view,),
            weight,
        )
}

/// There is a weight for each row of `x`, and each is something that the
/// weight function returns for its row.
pub open spec fn are_weights_of<T, F: Fn(ArrayView1<T>) -> T>(
    weight_function: F,
    x: Seq<Seq<T>>,
    weights: Seq<T>,
) -> bool {
    &&& weights.len() == x.len()
    &&& forall|i: int| 0 <= i < x.len() ==> #[trigger] is_weight_of(weight_function, x[i], weights[i])
}

/// The weight of each example: what the weight function returns for its row.
fn row_weights<T: Copy, F>(x: &ArrayView2<'_, T>, weight_function: &F) -> (weights: Vec<T>) where
    F: Fn(ArrayView1<T>) -> T,

    requires
        x.wf(),
        accepts_rows(*weight_function, x.dims()[1]),
    ensures
        weights@.len() == x.dims()[0],
        are_weights_of(*weight_function, x.rows(), weights@),
{
    let examples = x.nrows();
    let mut weights: Vec<T> = Vec::new();
    let mut i: usize = 0;
    proof {
        x.lemma_rows();
    }
    while i < examples
        invariant
            i <= examples,
            x.wf(),
            examples == x.dims()[0],
            x.rows().len() == examples,
            accepts_rows(*weight_function, x.dims()[1]),
            weights@.len() == i,
            forall|k: int|
                0 <= k < i ==> #[trigger] is_weight_of(*weight_function, x.rows()[k], weights@[k]),
        decreases examples - i,
    {
        let row = x.row(i);
        let ghost seen = row;
        let weight = weight_function(row);
        proof {
            x.lemma_rows();
            assert(call_ensures(*weight_function, (seen,), weight));
            assert(is_weight_of(*weight_function, x.rows()[i as int], weight));
        }
        weights.push(weight);
        i += 1;
    }
    weights
}

/// A way to fit coefficients to examples by passes of gradient descent.
pub trait Kernel<T: 'static>: Sized {
    /// The coefficients after one pass over the examples `x` with the
    /// targets `y`, from the coefficients `theta`, with one weight for each
    /// example.
    spec fn pass(x: Seq<Seq<T>>, y: Seq<T>, theta: Seq<T>, rate: T, weights: Seq<T>) -> Seq<
        T,
    > where T: Scalar + Neg<Output = T>;

    /// Fits coefficients to the examples `x` with the targets `y`, starting
    /// from the coefficients of `settings`. After each pass the fit stops if
    /// the mean cost changed by less than the threshold or if the passes
    /// are used up.
    ///
    /// Starting coefficients that are not as many as the features are
    /// refused. Otherwise the fit fails only if `num_traits::NumCast::from`
    /// returned `None` for the number of examples; where it did not, the
    /// answer holds the number of passes before the
    /// last, which is no more than `max_iteration_count` of `settings`, and
    /// one coefficient for each feature: what the passes lead to from the
    /// starting coefficients, each with the weights that the weight
    /// function returned in it.
    fn compute<F>(
        x: ArrayView2<'_, T>,
        y: ArrayView1<'_, T>,
        settings: LMSSettingsFilled<T>,
        weight_function: F,
    ) -> (result: Result<LMSResult<T>, LMSError>) where
        T: Scalar + Neg<Output = T> + PartialOrd + num_traits::Float,
        F: Fn(ArrayView1<T>) -> T,

        requires
            x.wf(),
            y.wf(),
            settings.starting_theta.wf(),
            y.dims()[0] == x.dims()[0],
            total_arithmetic::<T>(),
            total_negation::<T>(),
            accepts_rows(weight_function, x.dims()[1]),
        ensures
            settings.starting_theta.dims()[0] != x.dims()[1] ==> result == Err::<
                LMSResult<T>,
                LMSError,
            >(LMSError::InvalidTheta),
            settings.starting_theta.dims()[0] == x.dims()[1] ==> (result matches Err(error)
                ==> error == LMSError::FailedCastToT),
            result == Err::<LMSResult<T>, LMSError>(LMSError::FailedCastToT) ==> is_cast_of::<T>(
                x.dims()[0],
                None,
            ),
            result matches Ok(fit) ==> fit.theta.wf() && fit.theta.dims() == seq![x.dims()[1]]
                && fit.iteration_count <= settings.max_iteration_count,
            result matches Ok(fit) ==> (obeys_arithmetic::<T>() && T::obeys_neg_spec()
                ==> is_result_of(
                |x: Seq<Seq<T>>, y: Seq<T>, theta: Seq<T>, rate: T, weights: Seq<T>|
                    Self::pass(x, y, theta, rate, weights),
                weight_function,
                x.rows(),
                y.elements(),
                settings.starting_theta.elements(),
                settings.learning_rate,
                fit.iteration_count as int,
                fit.theta.elements(),
            )),
    ;
}

/// The coefficients after the first `k` passes, each with its own weights,
/// where `pass` says what one pass leads to.
pub open spec fn passes<T>(
    pass: spec_fn(Seq<Seq<T>>, Seq<T>, Seq<T>, T, Seq<T>) -> Seq<T>,
    x: Seq<Seq<T>>,
    y: Seq<T>,
    theta: Seq<T>,
    rate: T,
    weights: Seq<Seq<T>>,
    k: int,
) -> Seq<T>
    decreases k,
{
    if k <= 0 {
        theta
    } else {
        pass(x, y, passes(pass, x, y, theta, rate, weights, k - 1), rate, weights[k - 1])
    }
}

/// The coefficients `theta` are what as many passes as there are entries
/// in `weights` lead to from the coefficients `start`, with one weight for
/// each example in each pass.
pub open spec fn is_fit<T>(
    pass: spec_fn(Seq<Seq<T>>, Seq<T>, Seq<T>, T, Seq<T>) -> Seq<T>,
    x: Seq<Seq<T>>,
    y: Seq<T>,
    start: Seq<T>,
    rate: T,
    weights: Seq<Seq<T>>,
    theta: Seq<T>,
) -> bool {
    &&& forall|k: int| 0 <= k < weights.len() ==> #[trigger] weights[k].len() == x.len()
    &&& theta == passes(pass, x, y, start, rate, weights, weights.len() as int)
}

/// The coefficients `theta` are what one pass more than `iteration_count`
/// passes lead to from the coefficients `start`, each with weights that the
/// weight function returns for the rows of `x`.
pub open spec fn is_result_of<T, F: Fn(ArrayView1<T>) -> T>(
    pass: spec_fn(Seq<Seq<T>>, Seq<T>, Seq<T>, T, Seq<T>) -> Seq<T>,
    weight_function: F,
    x: Seq<Seq<T>>,
    y: Seq<T>,
    start: Seq<T>,
    rate: T,
    iteration_count: int,
    theta: Seq<T>,
) -> bool {
    exists|weights: Seq<Seq<T>>|
        {
            &&& #[trigger] weights.len() == iteration_count + 1
            &&& is_fit(pass, x, y, start, rate, weights, theta)
            &&& forall|k: int|
                0 <= k < weights.len() ==> are_weights_of(weight_function, x, #[trigger] weights[k])
        }
}

/// The first passes do not depend on the weights of a later pass.
pub proof fn lemma_passes_push<T>(
    pass: spec_fn(Seq<Seq<T>>, Seq<T>, Seq<T>, T, Seq<T>) -> Seq<T>,
    x: Seq<Seq<T>>,
    y: Seq<T>,
    theta: Seq<T>,
    rate: T,
    weights: Seq<Seq<T>>,
    more: Seq<T>,
    k: int,
)
    requires
        0 <= k <= weights.len(),
    ensures
        passes(pass, x, y, theta, rate, weights.push(more), k) == passes(
            pass,
            x,
            y,
            theta,
            rate,
            weights,
            k,
        ),
    decreases k,
{
    if k > 0 {
        lemma_passes_push(pass, x, y, theta, rate, weights, more, k - 1);
    }
}

/// Gradient descent that follows the gradient of all examples at once.
pub struct BatchKernel;

/// Gradient descent that follows the examples one after the other.
pub struct StochasticKernel;

impl<T: 'static> Kernel<T> for BatchKernel {
    open spec fn pass(x: Seq<Seq<T>>, y: Seq<T>, theta: Seq<T>, rate: T, weights: Seq<T>) -> Seq<
        T,
    > where T: Scalar + Neg<Output = T> {
        descend(theta, rate, batch_gradient(x, y, weights, theta, x.len() as int))
    }

    fn compute<F>(
        x: ArrayView2<'_, T>,
        y: ArrayView1<'_, T>,
        settings: LMSSettingsFilled<T>,
        weight_function: F,
    ) -> (result: Result<LMSResult<T>, LMSError>) where
        T: Scalar + Neg<Output = T> + PartialOrd + num_traits::Float,
        F: Fn(ArrayView1<T>) -> T,
     {
        let examples = x.nrows();
        let features = x.ncols();
        let mut theta = settings.starting_theta;
        proof {
            lemma_linear_index_of_one(RowMajor::layout_type(), theta.dims(), index1(0));
        }
        if theta.len() != features {
            return Err(LMSError::InvalidTheta);
        }
        let mut iteration_count: usize = 0;
        let mut previous_cost = zero_of::<T>();
        let ghost start = theta.elements();
        let ghost mut trace: Seq<Seq<T>> = Seq::empty();
        let ghost pass = |x: Seq<Seq<T>>, y: Seq<T>, theta: Seq<T>, rate: T, weights: Seq<T>|
            <BatchKernel as Kernel<T>>::pass(x, y, theta, rate, weights);
        proof {
            x.lemma_rows();
        }
        loop
            invariant_except_break
                trace.len() == iteration_count,
            invariant
                start == settings.starting_theta.elements(),
                pass == |x: Seq<Seq<T>>, y: Seq<T>, theta: Seq<T>, rate: T, weights: Seq<T>|
                    <BatchKernel as Kernel<T>>::pass(x, y, theta, rate, weights),
                x.rows().len() == examples,
                forall|k: int| 0 <= k < trace.len() ==> #[trigger] trace[k].len() == examples,
                forall|k: int|
                    0 <= k < trace.len() ==> are_weights_of(
                        weight_function,
                        x.rows(),
                        #[trigger] trace[k],
                    ),
                obeys_arithmetic::<T>() && T::obeys_neg_spec() ==> theta.elements() == passes(
                    pass,
                    x.rows(),
                    y.elements(),
                    start,
                    settings.learning_rate,
                    trace,
                    trace.len() as int,
                ),
                x.wf(),
                y.wf(),
                theta.wf(),
                examples == x.dims()[0],
                features == x.dims()[1],
                y.dims()[0] == x.dims()[0],
                theta.dims() == seq![features],
                settings.starting_theta.dims()[0] == features,
                total_arithmetic::<T>(),
                accepts_rows(weight_function, x.dims()[1]),
                iteration_count <= settings.max_iteration_count,
            ensures
                trace.len() == iteration_count + 1,
            decreases settings.max_iteration_count - iteration_count,
        {
            let weights = row_weights(&x, &weight_function);
            let (next_theta, cost) = batch_update(&x, &y, &theta, settings.learning_rate, &weights);
            theta = next_theta;
            proof {
                lemma_passes_push(
                    pass,
                    x.rows(),
                    y.elements(),
                    start,
                    settings.learning_rate,
                    trace,
                    weights@,
                    trace.len() as int,
                );
                trace = trace.push(weights@);
            }
            let count = match count_as::<T>(examples) {
                Some(count) => count,
                None => {
                    return Err(LMSError::FailedCastToT);
                },
            };
            match after_pass(
                previous_cost,
                cost,
                count,
                &settings.eps,
                iteration_count,
                settings.max_iteration_count,
            ) {
                Progress::Continue => {
                    previous_cost = cost;
                    iteration_count += 1;
                },
                _ => {
                    break ;
                },
            }
        }
        proof {
            if obeys_arithmetic::<T>() && T::obeys_neg_spec() {
                assert(trace.len() == iteration_count + 1 && is_fit(
                    pass,
                    x.rows(),
                    y.elements(),
                    start,
                    settings.learning_rate,
                    trace,
                    theta.elements(),
                ));
                assert(is_result_of(
                    pass,
                    weight_function,
                    x.rows(),
                    y.elements(),
                    start,
                    settings.learning_rate,
                    iteration_count as int,
                    theta.elements(),
                ));
            }
        }
        Ok(LMSResult { theta, iteration_count })
    }
}

impl<T: 'static> Kernel<T> for StochasticKernel {
    open spec fn pass(x: Seq<Seq<T>>, y: Seq<T>, theta: Seq<T>, rate: T, weights: Seq<T>) -> Seq<
        T,
    > where T: Scalar + Neg<Output = T> {
        stochastic_theta(x, y, weights, theta, rate, x.len() as int)
    }

    fn compute<F>(
        x: ArrayView2<'_, T>,
        y: ArrayView1<'_, T>,
        settings: LMSSettingsFilled<T>,
        weight_function: F,
    ) -> (result: Result<LMSResult<T>, LMSError>) where
        T: Scalar + Neg<Output = T> + PartialOrd + num_traits::Float,
        F: Fn(ArrayView1<T>) -> T,
     {
        let examples = x.nrows();
        let features = x.ncols();
        let mut theta = settings.starting_theta;
        proof {
            lemma_linear_index_of_one(RowMajor::layout_type(), theta.dims(), index1(0));
        }
        if theta.len() != features {
            return Err(LMSError::InvalidTheta);
        }
        let mut iteration_count: usize = 0;
        let mut previous_cost = zero_of::<T>();
        let ghost start = theta.elements();
        let ghost mut trace: Seq<Seq<T>> = Seq::empty();
        let ghost pass = |x: Seq<Seq<T>>, y: Seq<T>, theta: Seq<T>, rate: T, weights: Seq<T>|
            <StochasticKernel as Kernel<T>>::pass(x, y, theta, rate, weights);
        proof {
            x.lemma_rows();
        }
        loop
            invariant_except_break
                trace.len() == iteration_count,
            invariant
                start == settings.starting_theta.elements(),
                pass == |x: Seq<Seq<T>>, y: Seq<T>, theta: Seq<T>, rate: T, weights: Seq<T>|
                    <StochasticKernel as Kernel<T>>::pass(x, y, theta, rate, weights),
                x.rows().len() == examples,
                forall|k: int| 0 <= k < trace.len() ==> #[trigger] trace[k].len() == examples,
                forall|k: int|
                    0 <= k < trace.len() ==> are_weights_of(
                        weight_function,
                        x.rows(),
                        #[trigger] trace[k],
                    ),
                obeys_arithmetic::<T>() && T::obeys_neg_spec() ==> theta.elements() == passes(
                    pass,
                    x.rows(),
                    y.elements(),
                    start,
                    settings.learning_rate,
                    trace,
                    trace.len() as int,
                ),
                x.wf(),
                y.wf(),
                theta.wf(),
                examples == x.dims()[0],
                features == x.dims()[1],
                y.dims()[0] == x.dims()[0],
                theta.dims() == seq![features],
                settings.starting_theta.dims()[0] == features,
                total_arithmetic::<T>(),
                total_negation::<T>(),
                accepts_rows(weight_function, x.dims()[1]),
                iteration_count <= settings.max_iteration_count,
            ensures
                trace.len() == iteration_count + 1,
            decreases settings.max_iteration_count - iteration_count,
        {
            let weights = row_weights(&x, &weight_function);
            let (next_theta, cost) = stochastic_update(
                &x,
                &y,
                &theta,
                settings.learning_rate,
                &weights,
            );
            theta = next_theta;
            proof {
                lemma_passes_push(
                    pass,
                    x.rows(),
                    y.elements(),
                    start,
                    settings.learning_rate,
                    trace,
                    weights@,
                    trace.len() as int,
                );
                trace = trace.push(weights@);
            }
            let count = match count_as::<T>(examples) {
                Some(count) => count,
                None => {
                    return Err(LMSError::FailedCastToT);
                },
            };
            match after_pass(
                previous_cost,
                cost,
                count,
                &settings.eps,
                iteration_count,
                settings.max_iteration_count,
            ) {
                Progress::Continue => {
                    previous_cost = cost;
                    iteration_count += 1;
                },
                _ => {
                    break ;
                },
            }
        }
        proof {
            if obeys_arithmetic::<T>() && T::obeys_neg_spec() {
                assert(trace.len() == iteration_count + 1 && is_fit(
                    pass,
                    x.rows(),
                    y.elements(),
                    start,
                    settings.learning_rate,
                    trace,
                    theta.elements(),
                ));
                assert(is_result_of(
                    pass,
                    weight_function,
                    x.rows(),
                    y.elements(),
                    start,
                    settings.learning_rate,
                    iteration_count as int,
                    theta.elements(),
                ));
            }
        }
        Ok(LMSResult { theta, iteration_count })
    }
}

/// The number of starting coefficients that `settings` gives, if it gives any.
pub open spec fn given_theta_len<T>(settings: Option<LMSSettings<T>>) -> Option<usize> {
    match settings {
        Some(given) => match given.starting_theta {
            Some(theta) => Some(theta.dims()[0]),
            None => None,
        },
        None => None,
    }
}

/// The number of passes after which a fit with `settings` stops.
pub open spec fn max_passes<T>(settings: Option<LMSSettings<T>>) -> usize {
    match settings {
        Some(given) => match given.max_iteration_count {
            Some(count) => count,
            None => DEFAULT_MAX_ITERATION_COUNT,
        },
        None => DEFAULT_MAX_ITERATION_COUNT,
    }
}

/// A fit with `settings` starts from the learning rate `rate` and the
/// coefficients `start`: those that `settings` gives and, where it gives no
/// coefficients, as many additive identities as there are features.
pub open spec fn is_start_of<T: core::ops::Add<Output = T>>(
    settings: Option<LMSSettings<T>>,
    theta_dimensions: usize,
    rate: T,
    start: Seq<T>,
) -> bool {
    let zeros = {
        &&& start.len() == theta_dimensions
        &&& T::obeys_add_spec() ==> forall|i: int|
            0 <= i < theta_dimensions ==> is_additive_identity(#[trigger] start[i])
    };
    match settings {
        Some(given) => {
            &&& given.learning_rate matches Some(given_rate) ==> rate == given_rate
            &&& match given.starting_theta {
                Some(theta) => start == theta.elements(),
                None => zeros,
            }
        },
        None => zeros,
    }
}

/// `num_traits::NumCast::from` returned `None` for one of the counts that a
/// fit needs as values of `T`: a thousand, a hundred thousand, or the number
/// of examples.
pub open spec fn lacks_a_count<T: num_traits::NumCast>(examples: usize) -> bool {
    ||| is_cast_of::<T>(1000, None)
    ||| is_cast_of::<T>(100000, None)
    ||| is_cast_of::<T>(examples, None)
}

/// Fits coefficients to the examples `x` with the targets `y` by the
/// kernel `K`, with the settings filled in by `fill_missing_settings`.
///
/// Starting coefficients that are not as many as the features are refused.
/// Otherwise the fit fails only if `num_traits::NumCast::from` returned
/// `None` for a thousand, for a hundred thousand or for the number of
/// examples; where it did not, the answer holds one coefficient for each feature, and a
/// number of passes that is no more than the most that was asked for.
pub fn lms_solve<T, K, F>(
    x: ArrayView2<'_, T>,
    y: ArrayView1<'_, T>,
    settings: Option<LMSSettings<T>>,
    weight_function: F,
) -> (result: Result<LMSResult<T>, LMSError>) where
    T: Scalar + Neg<Output = T> + PartialOrd + num_traits::Float,
    K: Kernel<T>,
    F: Fn(ArrayView1<T>) -> T,

    requires
        x.wf(),
        y.wf(),
        settings matches Some(given) ==> (given.starting_theta matches Some(theta) ==> theta.wf()),
        y.dims()[0] == x.dims()[0],
        total_arithmetic::<T>(),
        total_negation::<T>(),
        accepts_rows(weight_function, x.dims()[1]),
    ensures
        result matches Err(error) ==> error == LMSError::InvalidTheta || error
            == LMSError::FailedCastToT,
        result == Err::<LMSResult<T>, LMSError>(LMSError::InvalidTheta) ==> given_theta_len(
            settings,
        ) is Some && given_theta_len(settings) != Some(x.dims()[1]),
        result == Err::<LMSResult<T>, LMSError>(LMSError::FailedCastToT) ==> lacks_a_count::<T>(
            x.dims()[0],
        ),
        result matches Ok(fit) ==> {
            &&& fit.theta.wf()
            &&& fit.theta.dims() == seq![x.dims()[1]]
            &&& fit.iteration_count <= max_passes(settings)
            &&& given_theta_len(settings) is Some ==> given_theta_len(settings) == Some(
                x.dims()[1],
            )
            &&& obeys_arithmetic::<T>() && T::obeys_neg_spec() ==> exists|rate: T, start: Seq<T>|
                {
                    &&& #[trigger] is_start_of(settings, x.dims()[1], rate, start)
                    &&& is_result_of(
                        |x: Seq<Seq<T>>, y: Seq<T>, theta: Seq<T>, rate: T, weights: Seq<T>|
                            K::pass(x, y, theta, rate, weights),
                        weight_function,
                        x.rows(),
                        y.elements(),
                        start,
                        rate,
                        fit.iteration_count as int,
                        fit.theta.elements(),
                    )
                }
        },
{
    let filled = match fill_missing_settings(settings, x.ncols()) {
        Ok(filled) => filled,
        Err(error) => {
            return Err(error);
        },
    };
    let ghost rate = filled.learning_rate;
    let ghost start = filled.starting_theta.elements();
    proof {
        lemma_linear_index_of_one(
            RowMajor::layout_type(),
            filled.starting_theta.dims(),
            index1(0),
        );
    }
    let result = K::compute(x, y, filled, weight_function);
    proof {
        if result is Ok {
            assert(is_start_of(settings, x.dims()[1], rate, start));
        }
    }
    result
}

} // verus!
