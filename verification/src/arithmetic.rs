use vstd::prelude::*;
use vstd::std_specs::ops::AddSpec;
use vstd::std_specs::ops::MulSpec;
use vstd::std_specs::ops::NegSpec;
use core::ops::Neg;
use crate::array_base::Array1;
use crate::array_base::NDArrayBase;
use crate::layout::index1;
use crate::layout::MemoryLayout;
use crate::layout::lemma_linear_index_of_one;
use crate::ownership::Ownership;
use crate::scalar::lemma_multiplicative_identity_unique;
use crate::scalar::obeys_arithmetic;
use crate::scalar::one_of;
use crate::scalar::one_spec;
use crate::scalar::total_arithmetic;
use crate::scalar::Scalar;

verus! {

/// The shorter of two lengths.
pub open spec fn shorter(a: nat, b: nat) -> nat {
    if a <= b {
        a
    } else {
        b
    }
}

/// The vector `a[i] + alpha * b[i]`, as long as the shorter of `a` and `b`.
pub open spec fn scaled_add_spec<A: Scalar>(alpha: A, a: Seq<A>, b: Seq<A>) -> Seq<A> {
    Seq::new(shorter(a.len(), b.len()), |i: int| a[i].add_spec(alpha.mul_spec(b[i])))
}

/// Every product and every sum that `scaled_add_spec(alpha, a, b)` takes is
/// one that `A` can compute.
pub open spec fn scaled_add_defined<A: Scalar>(alpha: A, a: Seq<A>, b: Seq<A>) -> bool {
    forall|i: int|
        0 <= i < shorter(a.len(), b.len()) ==> #[trigger] alpha.mul_req(b[i]) && a[i].add_req(
            alpha.mul_spec(b[i]),
        )
}

/// Every element of `scaled_add_spec(alpha, a, b)` can be computed: either
/// the operators of `A` accept all operands, or `obeys_arithmetic` holds
/// and no product and no sum fails.
pub open spec fn scaled_add_computable<A: Scalar>(alpha: A, a: Seq<A>, b: Seq<A>) -> bool {
    ||| total_arithmetic::<A>()
    ||| obeys_arithmetic::<A>() && scaled_add_defined(alpha, a, b)
}

/// Minus the multiplicative identity of `A`.
pub open spec fn minus_one_spec<A: Scalar + Neg<Output = A>>() -> A {
    one_spec::<A>().neg_spec()
}

/// Every element of `scaled_add_spec(minus_one_spec(), a, b)` can be computed:
/// either the operators of `A` accept all operands, or `obeys_arithmetic` holds
/// and neither the negation of one nor any product or sum fails.
pub open spec fn sub_computable<A: Scalar + Neg<Output = A>>(a: Seq<A>, b: Seq<A>) -> bool {
    ||| total_arithmetic::<A>() && forall|x: A| #[trigger] x.neg_req()
    ||| {
        &&& obeys_arithmetic::<A>()
        &&& A::obeys_neg_spec()
        &&& one_spec::<A>().neg_req()
        &&& scaled_add_computable(minus_one_spec::<A>(), a, b)
    }
}

/// The vector `lhs[i] + alpha * rhs[i]`, as long as the shorter of `lhs` and `rhs`.
pub fn scaled_add<A, O1, O2, L1, L2>(
    alpha: A,
    lhs: &NDArrayBase<'_, A, O1, L1, 1>,
    rhs: &NDArrayBase<'_, A, O2, L2, 1>,
) -> (result: Array1<A>) where
    A: Scalar,
    O1: Ownership,
    O2: Ownership,
    L1: MemoryLayout,
    L2: MemoryLayout,

    requires
        lhs.wf(),
        rhs.wf(),
        scaled_add_computable(alpha, lhs.elements(), rhs.elements()),
    ensures
        result.wf(),
        result.elements().len() == shorter(lhs.elements().len(), rhs.elements().len()),
        result.dims() == seq![result.elements().len() as usize],
        obeys_arithmetic::<A>() ==> result.elements() == scaled_add_spec(
            alpha,
            lhs.elements(),
            rhs.elements(),
        ),
{
    let len = if lhs.len() <= rhs.len() {
        lhs.len()
    } else {
        rhs.len()
    };
    proof {
        lemma_linear_index_of_one(L1::layout_type(), lhs.dims(), index1(0));
        lemma_linear_index_of_one(L2::layout_type(), rhs.dims(), index1(0));
    }
    let mut values: Vec<A> = Vec::new();
    let mut i: usize = 0;
    while i < len
        invariant
            i <= len,
            lhs.wf(),
            rhs.wf(),
            len == shorter(lhs.elements().len(), rhs.elements().len()),
            lhs.dims() == seq![lhs.elements().len() as usize],
            rhs.dims() == seq![rhs.elements().len() as usize],
            scaled_add_computable(alpha, lhs.elements(), rhs.elements()),
            values@.len() == i,
            obeys_arithmetic::<A>() ==> values@ == scaled_add_spec(
                alpha,
                lhs.elements(),
                rhs.elements(),
            ).take(i as int),
        decreases len - i,
    {
        proof {
            lemma_linear_index_of_one(L1::layout_type(), lhs.dims(), index1(i));
            lemma_linear_index_of_one(L2::layout_type(), rhs.dims(), index1(i));
            if !total_arithmetic::<A>() {
                assert(alpha.mul_req(rhs.elements()[i as int]));
            }
        }
        let index = [i];
        assert(index@ == index1(i));
        let scaled = alpha * rhs.get(index);
        values.push(lhs.get(index) + scaled);
        i += 1;
    }
    proof {
        let expected = scaled_add_spec(alpha, lhs.elements(), rhs.elements());
        assert(expected.take(len as int) == expected);
    }
    Array1::from_vec(values)
}

/// Sums and differences of vectors.
pub trait Arithmetic<Rhs> {
    /// The type of the elements.
    type Elem;

    /// What `scaled_add` asks of its operands.
    spec fn scaled_add_requires(&self, alpha: Self::Elem, rhs: &Rhs) -> bool;

    /// What `scaled_add` answers.
    spec fn scaled_add_ensures(
        &self,
        alpha: Self::Elem,
        rhs: &Rhs,
        result: Array1<Self::Elem>,
    ) -> bool;

    /// What `sub` asks of its operands.
    spec fn sub_requires(&self, rhs: &Rhs) -> bool where Self::Elem: Neg<Output = Self::Elem>;

    /// What `sub` answers.
    spec fn sub_ensures(&self, rhs: &Rhs, result: Array1<Self::Elem>) -> bool where
        Self::Elem: Neg<Output = Self::Elem>,
    ;

    /// What `add` asks of its operands.
    spec fn add_requires(&self, rhs: &Rhs) -> bool;

    /// What `add` answers.
    spec fn add_ensures(&self, rhs: &Rhs, result: Array1<Self::Elem>) -> bool;

    /// The difference of `self` and `rhs`, as `self` plus minus one times `rhs`.
    fn sub(&self, rhs: &Rhs) -> (result: Array1<Self::Elem>) where
        Self::Elem: num_traits::One + Neg<Output = Self::Elem>,

        requires
            self.sub_requires(rhs),
        ensures
            self.sub_ensures(rhs, result),
    ;

    /// The sum of `self` and `rhs`, as `self` plus one times `rhs`.
    fn add(&self, rhs: &Rhs) -> (result: Array1<Self::Elem>) where Self::Elem: num_traits::One
        requires
            self.add_requires(rhs),
        ensures
            self.add_ensures(rhs, result),
    ;

    /// The sum of `self` and `alpha` times `rhs`.
    fn scaled_add(&self, alpha: Self::Elem, rhs: &Rhs) -> (result: Array1<Self::Elem>)
        requires
            self.scaled_add_requires(alpha, rhs),
        ensures
            self.scaled_add_ensures(alpha, rhs, result),
    ;
}

impl<'a, 'b, A, O1, O2, L1, L2> Arithmetic<NDArrayBase<'b, A, O2, L2, 1>> for NDArrayBase<
    'a,
    A,
    O1,
    L1,
    1,
> where
    A: Scalar,
    O1: Ownership,
    O2: Ownership,
    L1: MemoryLayout,
    L2: MemoryLayout,
 {
    type Elem = A;

    /// Both vectors are well formed, and every element of the answer can be computed.
    open spec fn scaled_add_requires(&self, alpha: A, rhs: &NDArrayBase<'b, A, O2, L2, 1>) -> bool {
        &&& self.wf()
        &&& rhs.wf()
        &&& scaled_add_computable(alpha, self.elements(), rhs.elements())
    }

    /// The answer is as long as the shorter of the two vectors; its
    /// element `i` is `self[i] + alpha * rhs[i]`, where `obeys_arithmetic` holds of `A`.
    open spec fn scaled_add_ensures(
        &self,
        alpha: A,
        rhs: &NDArrayBase<'b, A, O2, L2, 1>,
        result: Array1<A>,
    ) -> bool {
        &&& result.wf()
        &&& result.elements().len() == shorter(self.elements().len(), rhs.elements().len())
        &&& obeys_arithmetic::<A>() ==> result.elements() == scaled_add_spec(
            alpha,
            self.elements(),
            rhs.elements(),
        )
    }

    /// Both vectors are well formed, and every element of the answer can
    /// be computed with the multiplicative identity for `alpha`.
    open spec fn add_requires(&self, rhs: &NDArrayBase<'b, A, O2, L2, 1>) -> bool {
        &&& self.wf()
        &&& rhs.wf()
        &&& scaled_add_computable(one_spec::<A>(), self.elements(), rhs.elements())
    }

    /// The answer is as long as the shorter of the two vectors; its
    /// element `i` is `self[i] + 1 * rhs[i]`, where `obeys_arithmetic` holds of `A`.
    open spec fn add_ensures(&self, rhs: &NDArrayBase<'b, A, O2, L2, 1>, result: Array1<A>) -> bool {
        &&& result.wf()
        &&& result.elements().len() == shorter(self.elements().len(), rhs.elements().len())
        &&& obeys_arithmetic::<A>() ==> result.elements() == scaled_add_spec(
            one_spec::<A>(),
            self.elements(),
            rhs.elements(),
        )
    }

    /// Both vectors are well formed, and every element of the answer can
    /// be computed with minus one for `alpha`.
    open spec fn sub_requires(&self, rhs: &NDArrayBase<'b, A, O2, L2, 1>) -> bool where
        A: Neg<Output = A>,
     {
        &&& self.wf()
        &&& rhs.wf()
        &&& sub_computable(self.elements(), rhs.elements())
    }

    /// The answer is as long as the shorter of the two vectors; its
    /// element `i` is `self[i] + (-1) * rhs[i]`, where `obeys_arithmetic` holds of `A`.
    open spec fn sub_ensures(
        &self,
        rhs: &NDArrayBase<'b, A, O2, L2, 1>,
        result: Array1<A>,
    ) -> bool where A: Neg<Output = A> {
        &&& result.wf()
        &&& result.elements().len() == shorter(self.elements().len(), rhs.elements().len())
        &&& obeys_arithmetic::<A>() && A::obeys_neg_spec() ==> result.elements()
            == scaled_add_spec(minus_one_spec::<A>(), self.elements(), rhs.elements())
    }

    fn sub(&self, rhs: &NDArrayBase<'b, A, O2, L2, 1>) -> (result: Array1<A>) where
        A: num_traits::One + Neg<Output = A>,
     {
        let one = one_of::<A>();
        proof {
            if obeys_arithmetic::<A>() {
                lemma_multiplicative_identity_unique(one);
            }
        }
        let alpha = one.neg();
        self.scaled_add(alpha, rhs)
    }

    fn add(&self, rhs: &NDArrayBase<'b, A, O2, L2, 1>) -> (result: Array1<A>) where
        A: num_traits::One,
     {
        let alpha = one_of::<A>();
        proof {
            if obeys_arithmetic::<A>() {
                lemma_multiplicative_identity_unique(alpha);
            }
        }
        self.scaled_add(alpha, rhs)
    }

    fn scaled_add(&self, alpha: A, rhs: &NDArrayBase<'b, A, O2, L2, 1>) -> (result: Array1<A>) {
        self::scaled_add(alpha, self, rhs)
    }
}

} // verus!
