use vstd::prelude::*;
use crate::array_base::Array1;
use crate::array_base::ArrayView1;
use crate::array_base::Transpose;
use crate::cholesky::inverse_computable;
use crate::cholesky::inverse_spec;
use crate::cholesky::has_refused_pivot;
use crate::cholesky::has_refused_sqrt_pivot;
use crate::cholesky::is_factor_of;
use crate::cholesky::is_single_valued;
use crate::cholesky::lemma_refused_pivot_excludes_factor;
use crate::cholesky::sqrt_is_single_valued;
use crate::cholesky::is_sqrt_factor_of;
use crate::cholesky::lemma_sqrt_factor;
use crate::cholesky::llt_computable;
use crate::dot::Dot;
use crate::layout::index1;
use crate::layout::index2;
use crate::linear_regression::LinearRegressionError;
use crate::linear_regression::LinearRegressionModel;
use crate::matrix::column_of;
use crate::matrix::dot_computable;
use crate::matrix::dot_spec;
use crate::matrix::matmul_computable;
use crate::matrix::matmul_spec;
use crate::matrix::transpose_spec;
use crate::layout::lemma_linear_index_of_one;
use crate::layout::lemma_linear_index_of_two;
use crate::layout::lemma_product_of_two;
use crate::order::obeys_ordered_arithmetic;
use crate::parametric_algorithm::ParametricAlgorithm;
use crate::scalar::obeys_arithmetic;
use crate::scalar::sqrt_of;
use crate::scalar::total_arithmetic;
use crate::scalar::Scalar;
use crate::training_data::TrainingData;

verus! {

/// The matrix with the one column `y`.
pub open spec fn column_matrix<A>(y: Seq<A>) -> Seq<Seq<A>> {
    Seq::new(y.len(), |i: int| seq![y[i]])
}

/// The matrix `transpose(X) * X` of a matrix `X` with the given number of columns.
pub open spec fn gram_spec<A: Scalar>(x: Seq<Seq<A>>, columns: int) -> Seq<Seq<A>> {
    matmul_spec(transpose_spec(x, columns), x, columns)
}

/// The coefficients `inverse(transpose(X) * X) * transpose(X) * y`, where
/// `l` is the Cholesky factor of `transpose(X) * X` and the products are
/// taken from the left.
pub open spec fn normal_equation_spec<A: Scalar>(
    x: Seq<Seq<A>>,
    columns: int,
    y: Seq<A>,
    l: Seq<A>,
) -> Seq<A> {
    let projection = matmul_spec(
        inverse_spec(l, columns),
        transpose_spec(x, columns),
        x.len() as int,
    );
    column_of(matmul_spec(projection, column_matrix(y), 1), 0)
}

/// The coefficients can be computed: the matrix `transpose(X) * X` can,
/// its Cholesky factor can and, whatever factor `root` leads to, the
/// inverse and the two products with it can.
pub open spec fn normal_equation_computable<A: Scalar, F: Fn(A) -> A>(
    root: F,
    x: Seq<Seq<A>>,
    columns: int,
    y: Seq<A>,
) -> bool {
    let transpose = transpose_spec(x, columns);
    let gram = gram_spec(x, columns);
    &&& matmul_computable(transpose, x, columns)
    &&& llt_computable(root, gram, columns)
    &&& forall|l: Seq<A>| #[trigger]
        is_factor_of(root, gram, l, columns) ==> {
            let inverse = inverse_spec(l, columns);
            let projection = matmul_spec(inverse, transpose, x.len() as int);
            &&& inverse_computable(l, columns)
            &&& matmul_computable(inverse, transpose, x.len() as int)
            &&& matmul_computable(projection, column_matrix(y), 1)
        }
}

/// There are as many targets as rows of features, and a square matrix with
/// as many rows as there are features has no more elements than a machine
/// word can count.
pub open spec fn shapes_fit<T>(training_data: &TrainingData<T>) -> bool {
    &&& training_data.y.dims()[0] == training_data.x.dims()[0]
    &&& training_data.x.dims()[1] * training_data.x.dims()[1] <= usize::MAX
}

/// The least-squares coefficients of a linear model, found in closed form.
pub struct NormalEquation<T: 'static> {
    theta: Array1<T>,
}

impl<T> NormalEquation<T> {
    /// The coefficients.
    pub closed spec fn coefficients(&self) -> Seq<T> {
        self.theta.elements()
    }

    /// The coefficients are held in a well-formed vector.
    pub closed spec fn wf(&self) -> bool {
        &&& self.theta.wf()
        &&& self.theta.dims() == seq![self.theta.elements().len() as usize]
    }
}

impl<T: Scalar> NormalEquation<T> {
    /// Fits the model to the examples, with `root` for the square root in
    /// the Cholesky factorization.
    ///
    /// The examples are refused with `OperationFailed` if there are not as
    /// many targets as rows of features, or if a square matrix with as many
    /// rows as there are features has more elements than a machine word can
    /// count. Otherwise they are refused with `SingularMatrix` where the
    /// factorization of `transpose(X) * X` meets a pivot that is not
    /// greater than the additive identity; with a `root` that returns one
    /// value only for each argument, that is the answer exactly when the
    /// shapes fit and the factorization meets such a pivot. Where it meets
    /// none, the coefficients are
    /// `inverse(transpose(X) * X) * transpose(X) * y`, where
    /// `obeys_ordered_arithmetic` holds of `T`.
    pub fn new_with<F>(training_data: &TrainingData<T>, root: F) -> (result: Result<
        Self,
        LinearRegressionError,
    >) where T: num_traits::Zero + num_traits::One, F: Fn(T) -> T
        requires
            training_data.x.wf(),
            training_data.y.wf(),
            training_data.y.dims()[0] == training_data.x.dims()[0] ==> normal_equation_computable(
                root,
                training_data.x.rows(),
                training_data.x.dims()[1] as int,
                training_data.y.elements(),
            ),
        ensures
            result == Err::<Self, LinearRegressionError>(LinearRegressionError::OperationFailed)
                <==> !shapes_fit(training_data),
            result matches Err(error) ==> error == LinearRegressionError::OperationFailed || error
                == LinearRegressionError::SingularMatrix,
            result == Err::<Self, LinearRegressionError>(LinearRegressionError::SingularMatrix)
                && obeys_ordered_arithmetic::<T>() ==> has_refused_pivot(
                root,
                gram_spec(training_data.x.rows(), training_data.x.dims()[1] as int),
                training_data.x.dims()[1] as int,
            ),
            obeys_ordered_arithmetic::<T>() && is_single_valued(root) ==> (result == Err::<
                Self,
                LinearRegressionError,
            >(LinearRegressionError::SingularMatrix) <==> shapes_fit(training_data)
                && has_refused_pivot(
                root,
                gram_spec(training_data.x.rows(), training_data.x.dims()[1] as int),
                training_data.x.dims()[1] as int,
            )),
            result matches Ok(model) ==> {
                &&& model.wf()
                &&& model.coefficients().len() == training_data.x.dims()[1]
                &&& obeys_ordered_arithmetic::<T>() ==> exists|l: Seq<T>|
                    {
                        &&& #[trigger] is_factor_of(
                            root,
                            gram_spec(training_data.x.rows(), training_data.x.dims()[1] as int),
                            l,
                            training_data.x.dims()[1] as int,
                        )
                        &&& model.coefficients() == normal_equation_spec(
                            training_data.x.rows(),
                            training_data.x.dims()[1] as int,
                            training_data.y.elements(),
                            l,
                        )
                    }
            },
    {
        let x = &training_data.x;
        let examples = x.nrows();
        let features = x.ncols();
        let targets = training_data.y.len();
        let count = x.len();
        proof {
            assert(features * examples == examples * features) by (nonlinear_arith);
            lemma_linear_index_of_one(
                crate::layout::LayoutType::RowMajor,
                training_data.y.dims(),
                index1(0),
            );
            lemma_product_of_two(x.dims());
        }
        if targets != examples {
            return Err(LinearRegressionError::OperationFailed);
        }
        let x_t = x.t();
        let column = [targets, 1];
        proof {
            lemma_product_of_two(column@);
        }
        let y_as_matrix = match training_data.y.view().into_shape(column) {
            Ok(matrix) => matrix,
            Err(_) => {
                return Err(LinearRegressionError::OperationFailed);
            },
        };
        proof {
            y_as_matrix.lemma_rows();
            x.lemma_rows();
            assert(y_as_matrix.rows() =~~= column_matrix(training_data.y.elements())) by {
                assert forall|r: int| 0 <= r < targets implies y_as_matrix.rows()[r]
                    =~= column_matrix(training_data.y.elements())[r] by {
                    let row = r as usize;
                    lemma_linear_index_of_two(y_as_matrix.dims(), index2(row, 0));
                    assert(y_as_matrix.rows()[r][0] == y_as_matrix.at(index2(row, 0)));
                }
            }
        }
        let gram = match x_t.dot(x) {
            Ok(gram) => gram,
            Err(_) => {
                return Err(LinearRegressionError::OperationFailed);
            },
        };
        let factor = match gram.llt_with(root) {
            Ok(factor) => factor,
            Err(error) => {
                return Err(LinearRegressionError::from(error));
            },
        };
        proof {
            lemma_product_of_two(gram.dims());
        }
        let inverse = factor.inv();
        let projection = match inverse.dot(&x_t) {
            Ok(projection) => projection,
            Err(_) => {
                return Err(LinearRegressionError::OperationFailed);
            },
        };
        let theta = match projection.dot(&y_as_matrix) {
            Ok(theta) => theta,
            Err(_) => {
                return Err(LinearRegressionError::OperationFailed);
            },
        };
        proof {
            lemma_product_of_two(theta.dims());
        }
        let theta_len = theta.len();
        let shape = [theta_len];
        proof {
            lemma_linear_index_of_one(crate::layout::LayoutType::RowMajor, shape@, index1(0));
        }
        let coefficients = match theta.into_shape(shape) {
            Ok(coefficients) => coefficients,
            Err(_) => {
                return Err(LinearRegressionError::OperationFailed);
            },
        };
        proof {
            assert(coefficients.dims() =~= seq![coefficients.elements().len() as usize]);
            if obeys_ordered_arithmetic::<T>() {
                let l = factor.packed();
                let n = features as int;
                y_as_matrix.lemma_rows();
                theta.lemma_rows();
                assert(coefficients.elements() =~= normal_equation_spec(
                    x.rows(),
                    n,
                    training_data.y.elements(),
                    l,
                )) by {
                    assert forall|i: int| 0 <= i < features implies coefficients.elements()[i]
                        == column_of(theta.rows(), 0)[i] by {
                        let row = i as usize;
                        lemma_linear_index_of_two(theta.dims(), index2(row, 0));
                        assert(theta.rows()[i][0] == theta.at(index2(row, 0)));
                    }
                }
                assert(is_factor_of(root, gram_spec(x.rows(), n), l, n));
                if is_single_valued(root) && has_refused_pivot(root, gram_spec(x.rows(), n), n) {
                    lemma_refused_pivot_excludes_factor(root, gram_spec(x.rows(), n), l, n);
                }
            }
        }
        Ok(NormalEquation { theta: coefficients })
    }
}

impl<T: Scalar> NormalEquation<T> {
    /// Fits the model to the examples.
    ///
    /// The examples are refused with `OperationFailed` if there are not as
    /// many targets as rows of features, or if a square matrix with as many
    /// rows as there are features has more elements than a machine word can
    /// count. Otherwise they are refused with `SingularMatrix` where the
    /// factorization of `transpose(X) * X` meets a pivot that is not
    /// greater than the additive identity; where `num_traits::Float::sqrt`
    /// returns one value only for each argument, that is the answer exactly
    /// when the shapes fit and the factorization meets such a pivot. Where
    /// it meets none, the coefficients are
    /// `inverse(transpose(X) * X) * transpose(X) * y`, where
    /// `obeys_ordered_arithmetic` holds of `T`, with the Cholesky factor
    /// that `num_traits::Float::sqrt` gives.
    ///
    /// The comparison is made on the pivot as it was computed: where the
    /// arithmetic of `T` rounds, the pivot of a singular matrix can come out
    /// just above the additive identity, and such examples are not refused.
    pub fn new(training_data: &TrainingData<T>) -> (result: Result<
        Self,
        LinearRegressionError,
    >) where T: num_traits::Float
        requires
            training_data.x.wf(),
            training_data.y.wf(),
            total_arithmetic::<T>(),
        ensures
            result == Err::<Self, LinearRegressionError>(LinearRegressionError::OperationFailed)
                <==> !shapes_fit(training_data),
            result matches Err(error) ==> error == LinearRegressionError::OperationFailed || error
                == LinearRegressionError::SingularMatrix,
            result == Err::<Self, LinearRegressionError>(LinearRegressionError::SingularMatrix)
                && obeys_ordered_arithmetic::<T>() ==> has_refused_sqrt_pivot::<T>(
                gram_spec(training_data.x.rows(), training_data.x.dims()[1] as int),
                training_data.x.dims()[1] as int,
            ),
            obeys_ordered_arithmetic::<T>() && sqrt_is_single_valued::<T>() ==> (result == Err::<
                Self,
                LinearRegressionError,
            >(LinearRegressionError::SingularMatrix) <==> shapes_fit(training_data)
                && has_refused_sqrt_pivot::<T>(
                gram_spec(training_data.x.rows(), training_data.x.dims()[1] as int),
                training_data.x.dims()[1] as int,
            )),
            result matches Ok(model) ==> {
                &&& model.wf()
                &&& model.coefficients().len() == training_data.x.dims()[1]
                &&& obeys_ordered_arithmetic::<T>() ==> exists|l: Seq<T>|
                    {
                        &&& #[trigger] is_sqrt_factor_of(
                            gram_spec(training_data.x.rows(), training_data.x.dims()[1] as int),
                            l,
                            training_data.x.dims()[1] as int,
                        )
                        &&& model.coefficients() == normal_equation_spec(
                            training_data.x.rows(),
                            training_data.x.dims()[1] as int,
                            training_data.y.elements(),
                            l,
                        )
                    }
            },
    {
        let result = Self::new_with(training_data, sqrt_of::<T>);
        proof {
            let n = training_data.x.dims()[1] as int;
            let gram = gram_spec(training_data.x.rows(), n);
            if obeys_ordered_arithmetic::<T>() {
                if result is Ok {
                    let model = result->Ok_0;
                    let l = choose|l: Seq<T>|
                        {
                            &&& #[trigger] is_factor_of(sqrt_of::<T>, gram, l, n)
                            &&& model.coefficients() == normal_equation_spec(
                                training_data.x.rows(),
                                n,
                                training_data.y.elements(),
                                l,
                            )
                        };
                    lemma_sqrt_factor(gram, l, n);
                    assert(is_sqrt_factor_of(gram, l, n));
                } else {
                    lemma_sqrt_factor(gram, Seq::<T>::empty(), n);
                }
            }
        }
        result
    }
}

impl<T: Scalar> LinearRegressionModel<T> for NormalEquation<T> {
    /// The model and the features are well formed and, if there are as many
    /// features as coefficients, their dot product can be computed.
    open spec fn predict_requires(&self, x: &ArrayView1<'_, T>) -> bool {
        &&& self.wf()
        &&& x.wf()
        &&& x.dims()[0] == self.coefficients().len() ==> dot_computable(
            x.elements(),
            self.coefficients(),
        )
    }

    /// Features that are not as many as the coefficients are refused.
    /// Otherwise the prediction is the dot product of the features and the
    /// coefficients, where `obeys_arithmetic` holds of `T`.
    open spec fn predict_ensures(
        &self,
        x: &ArrayView1<'_, T>,
        result: Result<T, LinearRegressionError>,
    ) -> bool where T: num_traits::Float {
        &&& result is Err <==> x.dims()[0] != self.coefficients().len()
        &&& result matches Err(error) ==> error == LinearRegressionError::OperationFailed
        &&& result matches Ok(value) ==> (obeys_arithmetic::<T>() ==> value == dot_spec(
            x.elements(),
            self.coefficients(),
        ))
    }

    fn predict(&self, x: &ArrayView1<'_, T>) -> (result: Result<T, LinearRegressionError>) where
        T: num_traits::Float + num_traits::FloatConst,
     {
        let count = self.theta.len();
        match x.dot(&self.theta) {
            Ok(value) => Ok(value),
            Err(_) => Err(LinearRegressionError::OperationFailed),
        }
    }
}

impl<T: Scalar> ParametricAlgorithm<T> for NormalEquation<T> {
    open spec fn theta_requires(&self) -> bool {
        self.wf()
    }

    /// The vector holds the coefficients.
    open spec fn theta_ensures(&self, theta: &ArrayView1<'_, T>) -> bool {
        &&& theta.wf()
        &&& theta.elements() == self.coefficients()
    }

    fn theta(&self) -> (theta: ArrayView1<'_, T>) {
        self.theta.view()
    }
}

} // verus!
