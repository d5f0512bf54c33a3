use vstd::prelude::*;
use vstd::arithmetic::div_mod::lemma_mul_mod_noop_left;
use vstd::arithmetic::div_mod::lemma_small_mod;

verus! {

/// The convention by which the axes of an array are ordered in memory.
#[derive(Clone, Copy, Debug, PartialEq, Eq, Structural)]
pub enum LayoutType {
    /// The last axis varies fastest.
    RowMajor,
    /// The first axis varies fastest.
    ColumnMajor,
}

/// The product of the extents `dimensions[from..to]`; `1` for an empty range.
pub open spec fn product_range(dimensions: Seq<usize>, from: int, to: int) -> nat
    decreases to - from,
{
    if to <= from {
        1
    } else {
        product_range(dimensions, from, to - 1) * (dimensions[to - 1] as nat)
    }
}

/// The number of elements of an array with the given extents.
pub open spec fn product(dimensions: Seq<usize>) -> nat {
    product_range(dimensions, 0, dimensions.len() as int)
}

/// The number of buffer slots between two elements that are neighbours along
/// `axis`: the product of the extents of all axes that vary faster.
pub open spec fn stride(layout: LayoutType, dimensions: Seq<usize>, axis: int) -> nat {
    match layout {
        LayoutType::RowMajor => product_range(dimensions, axis + 1, dimensions.len() as int),
        LayoutType::ColumnMajor => product_range(dimensions, 0, axis),
    }
}

/// The number of values of a machine word.
pub open spec fn word() -> nat {
    (usize::MAX + 1) as nat
}

/// `strides` holds, for every axis, the stride of `layout` reduced to a machine word.
pub open spec fn is_strides_of(
    layout: LayoutType,
    dimensions: Seq<usize>,
    strides: Seq<usize>,
) -> bool {
    &&& strides.len() == dimensions.len()
    &&& forall|i: int|
        0 <= i < dimensions.len() ==> #[trigger] strides[i] as nat == stride(layout, dimensions, i)
            % word()
}

/// Every index lies below the extent of its axis.
pub open spec fn in_bounds(indices: Seq<usize>, dimensions: Seq<usize>) -> bool {
    &&& indices.len() == dimensions.len()
    &&& forall|i: int| 0 <= i < dimensions.len() ==> #[trigger] indices[i] < dimensions[i]
}

/// No axis is empty.
pub open spec fn all_positive(dimensions: Seq<usize>) -> bool {
    forall|i: int| 0 <= i < dimensions.len() ==> #[trigger] dimensions[i] > 0
}

/// The sum of `indices[i] * stride(i)` over the first `n` axes.
pub open spec fn linear_index_upto(
    layout: LayoutType,
    dimensions: Seq<usize>,
    indices: Seq<usize>,
    n: int,
) -> nat
    decreases n,
{
    if n <= 0 {
        0
    } else {
        linear_index_upto(layout, dimensions, indices, n - 1) + (indices[n - 1] as nat) * stride(
            layout,
            dimensions,
            n - 1,
        )
    }
}

/// The buffer slot of the element at `indices`.
pub open spec fn linear_index(layout: LayoutType, dimensions: Seq<usize>, indices: Seq<usize>) -> nat {
    linear_index_upto(layout, dimensions, indices, dimensions.len() as int)
}

/// The index of element `i` of a one-dimensional array.
pub open spec fn index1(i: usize) -> Seq<usize> {
    seq![i]
}

/// The index of the element in row `i` and column `j` of a two-dimensional array.
pub open spec fn index2(i: usize, j: usize) -> Seq<usize> {
    seq![i, j]
}

/// The index of the last element: one below the extent on every axis.
pub open spec fn last_index(dimensions: Seq<usize>) -> Seq<usize> {
    Seq::new(dimensions.len(), |i: int| (dimensions[i] - 1) as usize)
}

/// A product over a range is the product over its two parts.
pub proof fn lemma_product_split(dimensions: Seq<usize>, from: int, mid: int, to: int)
    requires
        from <= mid <= to,
    ensures
        product_range(dimensions, from, to) == product_range(dimensions, from, mid) * product_range(
            dimensions,
            mid,
            to,
        ),
    decreases to - mid,
{
    if mid < to {
        lemma_product_split(dimensions, from, mid, to - 1);
        let a = product_range(dimensions, from, mid);
        let b = product_range(dimensions, mid, to - 1);
        let c = dimensions[to - 1] as nat;
        assert(product_range(dimensions, from, to) == (a * b) * c);
        assert(product_range(dimensions, mid, to) == b * c);
        assert((a * b) * c == a * (b * c)) by (nonlinear_arith);
    } else {
        assert(product_range(dimensions, mid, to) == 1);
        assert(product_range(dimensions, from, mid) * 1 == product_range(dimensions, from, mid));
    }
}

/// A product of extents of which none is zero is not zero.
pub proof fn lemma_product_positive(dimensions: Seq<usize>, from: int, to: int)
    requires
        0 <= from,
        to <= dimensions.len(),
        all_positive(dimensions),
    ensures
        product_range(dimensions, from, to) >= 1,
    decreases to - from,
{
    if from < to {
        lemma_product_positive(dimensions, from, to - 1);
        let a = product_range(dimensions, from, to - 1);
        let c = dimensions[to - 1] as nat;
        assert(a * c >= 1) by (nonlinear_arith)
            requires
                a >= 1,
                c >= 1,
        ;
    }
}

/// A part of the extents multiplies to no more than all of them.
pub proof fn lemma_product_range_le_product(dimensions: Seq<usize>, from: int, to: int)
    requires
        0 <= from <= to <= dimensions.len(),
        all_positive(dimensions),
    ensures
        product_range(dimensions, from, to) <= product(dimensions),
{
    let n = dimensions.len() as int;
    lemma_product_split(dimensions, 0, from, n);
    lemma_product_split(dimensions, from, to, n);
    lemma_product_positive(dimensions, 0, from);
    lemma_product_positive(dimensions, to, n);
    let a = product_range(dimensions, 0, from);
    let b = product_range(dimensions, from, to);
    let c = product_range(dimensions, to, n);
    assert(b <= a * (b * c)) by (nonlinear_arith)
        requires
            a >= 1,
            c >= 1,
    ;
}

/// In an array that has elements, no stride exceeds the number of elements.
pub proof fn lemma_stride_le_product(layout: LayoutType, dimensions: Seq<usize>, axis: int)
    requires
        0 <= axis < dimensions.len(),
        all_positive(dimensions),
    ensures
        stride(layout, dimensions, axis) <= product(dimensions),
{
    match layout {
        LayoutType::RowMajor => {
            lemma_product_range_le_product(dimensions, axis + 1, dimensions.len() as int);
        },
        LayoutType::ColumnMajor => {
            lemma_product_range_le_product(dimensions, 0, axis);
        },
    }
}

/// Strides that were reduced to a machine word are the true strides when the
/// array has elements and their number fits a word.
pub proof fn lemma_strides_exact(layout: LayoutType, dimensions: Seq<usize>, strides: Seq<usize>)
    requires
        is_strides_of(layout, dimensions, strides),
        all_positive(dimensions),
        product(dimensions) <= usize::MAX,
    ensures
        forall|i: int|
            0 <= i < dimensions.len() ==> #[trigger] strides[i] as nat == stride(
                layout,
                dimensions,
                i,
            ),
{
    assert forall|i: int| 0 <= i < dimensions.len() implies #[trigger] strides[i] as nat == stride(
        layout,
        dimensions,
        i,
    ) by {
        lemma_stride_le_product(layout, dimensions, i);
        lemma_small_mod(stride(layout, dimensions, i), word());
    }
}

/// The buffer slot grows with every index.
pub proof fn lemma_linear_index_monotone(
    layout: LayoutType,
    dimensions: Seq<usize>,
    smaller: Seq<usize>,
    larger: Seq<usize>,
    n: int,
)
    requires
        0 <= n <= smaller.len(),
        smaller.len() == larger.len(),
        forall|i: int| 0 <= i < n ==> smaller[i] <= larger[i],
    ensures
        linear_index_upto(layout, dimensions, smaller, n) <= linear_index_upto(
            layout,
            dimensions,
            larger,
            n,
        ),
    decreases n,
{
    if n > 0 {
        lemma_linear_index_monotone(layout, dimensions, smaller, larger, n - 1);
        let a = smaller[n - 1] as nat;
        let b = larger[n - 1] as nat;
        let s = stride(layout, dimensions, n - 1);
        assert(a * s <= b * s) by (nonlinear_arith)
            requires
                a <= b,
        ;
    }
}

/// The sum over the first axes is no more than the sum over all of them.
pub proof fn lemma_linear_index_prefix(
    layout: LayoutType,
    dimensions: Seq<usize>,
    indices: Seq<usize>,
    k: int,
    n: int,
)
    requires
        0 <= k <= n,
    ensures
        linear_index_upto(layout, dimensions, indices, k) <= linear_index_upto(
            layout,
            dimensions,
            indices,
            n,
        ),
    decreases n - k,
{
    if k < n {
        lemma_linear_index_prefix(layout, dimensions, indices, k, n - 1);
    }
}

/// What the first `n` axes add to the buffer slot of the last index.
proof fn lemma_last_index_upto(layout: LayoutType, dimensions: Seq<usize>, n: int)
    requires
        0 <= n <= dimensions.len(),
        all_positive(dimensions),
    ensures
        layout == LayoutType::ColumnMajor ==> linear_index_upto(
            layout,
            dimensions,
            last_index(dimensions),
            n,
        ) + 1 == product_range(dimensions, 0, n),
        layout == LayoutType::RowMajor ==> linear_index_upto(
            layout,
            dimensions,
            last_index(dimensions),
            n,
        ) + product_range(dimensions, n, dimensions.len() as int) == product(dimensions),
    decreases n,
{
    let len = dimensions.len() as int;
    if n > 0 {
        lemma_last_index_upto(layout, dimensions, n - 1);
        let extent = dimensions[n - 1] as nat;
        assert(last_index(dimensions)[n - 1] as nat == extent - 1);
        match layout {
            LayoutType::ColumnMajor => {
                let rest = product_range(dimensions, 0, n - 1);
                assert((extent - 1) as nat * rest + rest == rest * extent) by (nonlinear_arith)
                    requires
                        extent >= 1,
                ;
            },
            LayoutType::RowMajor => {
                let rest = product_range(dimensions, n, len);
                lemma_product_split(dimensions, n - 1, n, len);
                assert(product_range(dimensions, n - 1, n) == extent) by {
                    assert(product_range(dimensions, n - 1, n - 1) == 1);
                    assert(product_range(dimensions, n - 1, n) == 1 * dimensions[n - 1] as nat);
                }
                assert((extent - 1) as nat * rest + rest == extent * rest) by (nonlinear_arith)
                    requires
                        extent >= 1,
                ;
            },
        }
    }
}

/// The last valid index maps to the last buffer slot, under either layout.
pub proof fn lemma_last_index_is_last_slot(layout: LayoutType, dimensions: Seq<usize>)
    requires
        all_positive(dimensions),
    ensures
        linear_index(layout, dimensions, last_index(dimensions)) == product(dimensions) - 1,
{
    lemma_last_index_upto(layout, dimensions, dimensions.len() as int);
}

/// Every valid index maps to a slot of the buffer.
pub proof fn lemma_linear_index_in_bounds(
    layout: LayoutType,
    dimensions: Seq<usize>,
    indices: Seq<usize>,
)
    requires
        in_bounds(indices, dimensions),
    ensures
        linear_index(layout, dimensions, indices) < product(dimensions),
{
    assert(all_positive(dimensions)) by {
        assert forall|i: int| 0 <= i < dimensions.len() implies #[trigger] dimensions[i] > 0 by {
            assert(indices[i] < dimensions[i]);
        }
    }
    let last = last_index(dimensions);
    assert forall|i: int| 0 <= i < dimensions.len() implies indices[i] <= last[i] by {
        assert(indices[i] < dimensions[i]);
    }
    lemma_linear_index_monotone(layout, dimensions, indices, last, dimensions.len() as int);
    lemma_last_index_is_last_slot(layout, dimensions);
}

/// The first extents of the reversed extents are the last extents.
proof fn lemma_product_range_reverse(dimensions: Seq<usize>, m: int)
    requires
        0 <= m <= dimensions.len(),
    ensures
        product_range(dimensions.reverse(), 0, m) == product_range(
            dimensions,
            dimensions.len() - m,
            dimensions.len() as int,
        ),
    decreases m,
{
    let len = dimensions.len() as int;
    if m > 0 {
        lemma_product_range_reverse(dimensions, m - 1);
        lemma_product_split(dimensions, len - m, len - m + 1, len);
        let extent = dimensions[len - m] as nat;
        let rest = product_range(dimensions, len - m + 1, len);
        assert(dimensions.reverse()[m - 1] == dimensions[len - m]);
        assert(product_range(dimensions, len - m, len - m + 1) == extent) by {
            assert(product_range(dimensions, len - m, len - m) == 1);
            assert(product_range(dimensions, len - m, len - m + 1) == 1 * dimensions[len - m + 1
                - 1] as nat);
        }
        assert(rest * extent == extent * rest) by (nonlinear_arith);
    }
}

/// The two layouts mirror each other: the row-major stride of an axis is the
/// column-major stride of the mirrored axis of the reversed extents, and the
/// other way round.
pub proof fn lemma_layouts_mirror(dimensions: Seq<usize>, axis: int)
    requires
        0 <= axis < dimensions.len(),
    ensures
        stride(LayoutType::RowMajor, dimensions, axis) == stride(
            LayoutType::ColumnMajor,
            dimensions.reverse(),
            dimensions.len() - 1 - axis,
        ),
        stride(LayoutType::ColumnMajor, dimensions, axis) == stride(
            LayoutType::RowMajor,
            dimensions.reverse(),
            dimensions.len() - 1 - axis,
        ),
{
    let len = dimensions.len() as int;
    lemma_product_range_reverse(dimensions, len - 1 - axis);
    let mirrored = dimensions.reverse();
    assert(mirrored.reverse() =~= dimensions);
    lemma_product_range_reverse(mirrored, axis);
}

/// An array with an empty axis has no elements.
pub proof fn lemma_product_zero(dimensions: Seq<usize>, axis: int)
    requires
        0 <= axis < dimensions.len(),
        dimensions[axis] == 0,
    ensures
        product(dimensions) == 0,
{
    let len = dimensions.len() as int;
    lemma_product_split(dimensions, 0, axis + 1, len);
    let before = product_range(dimensions, 0, axis);
    let after = product_range(dimensions, axis + 1, len);
    assert(product_range(dimensions, 0, axis + 1) == before * dimensions[axis + 1 - 1] as nat);
    assert((before * 0) * after == 0) by (nonlinear_arith);
}

/// The number of elements of an array with the given extents, or `None` if
/// that number does not fit a machine word.
pub fn checked_product<const N: usize>(dimensions: &[usize; N]) -> (total: Option<usize>)
    ensures
        total == if product(dimensions@) <= usize::MAX {
            Some(product(dimensions@) as usize)
        } else {
            None
        },
{
    let mut i: usize = 0;
    while i < N
        invariant
            i <= N,
            forall|k: int| 0 <= k < i ==> #[trigger] dimensions@[k] > 0,
        decreases N - i,
    {
        if dimensions[i] == 0 {
            proof {
                lemma_product_zero(dimensions@, i as int);
            }
            return Some(0);
        }
        i += 1;
    }
    let mut total: usize = 1;
    let mut i: usize = 0;
    while i < N
        invariant
            i <= N,
            all_positive(dimensions@),
            total == product_range(dimensions@, 0, i as int),
        decreases N - i,
    {
        match total.checked_mul(dimensions[i]) {
            Some(next) => {
                total = next;
            },
            None => {
                proof {
                    lemma_product_range_le_product(dimensions@, 0, i + 1);
                }
                return None;
            },
        }
        i += 1;
    }
    Some(total)
}

/// The product of two extents, spelled out.
pub proof fn lemma_product_of_two(dimensions: Seq<usize>)
    requires
        dimensions.len() == 2,
    ensures
        product(dimensions) == dimensions[0] * dimensions[1],
        product_range(dimensions, 0, 1) == dimensions[0],
        product_range(dimensions, 1, 2) == dimensions[1],
        product_range(dimensions, 0, 0) == 1,
        product_range(dimensions, 2, 2) == 1,
{
    assert(product_range(dimensions, 0, 0) == 1);
    assert(product_range(dimensions, 0, 1) == 1 * dimensions[1 - 1] as nat);
    assert(product_range(dimensions, 0, 2) == product_range(dimensions, 0, 1) * dimensions[2
        - 1] as nat);
    assert(product_range(dimensions, 1, 1) == 1);
    assert(product_range(dimensions, 1, 2) == 1 * dimensions[2 - 1] as nat);
}

/// The buffer slot of an element of a one-dimensional store, spelled out.
pub proof fn lemma_linear_index_of_one(
    layout: LayoutType,
    dimensions: Seq<usize>,
    indices: Seq<usize>,
)
    requires
        dimensions.len() == 1,
        indices.len() == 1,
    ensures
        linear_index(layout, dimensions, indices) == indices[0],
        product(dimensions) == dimensions[0],
{
    assert(product_range(dimensions, 0, 0) == 1);
    assert(product_range(dimensions, 1, 1) == 1);
    assert(product_range(dimensions, 0, 1) == 1 * dimensions[1 - 1] as nat);
    assert(stride(layout, dimensions, 0) == 1) by {
        match layout {
            LayoutType::RowMajor => {},
            LayoutType::ColumnMajor => {},
        }
    }
    assert(linear_index_upto(layout, dimensions, indices, 0) == 0);
    assert(linear_index_upto(layout, dimensions, indices, 1) == 0 + indices[1 - 1] * stride(
        layout,
        dimensions,
        1 - 1,
    ));
}

/// The buffer slot of an element of a two-dimensional store, spelled out.
pub proof fn lemma_linear_index_of_two(dimensions: Seq<usize>, indices: Seq<usize>)
    requires
        dimensions.len() == 2,
        indices.len() == 2,
    ensures
        linear_index(LayoutType::RowMajor, dimensions, indices) == indices[0]
            * dimensions[1] + indices[1],
        linear_index(LayoutType::ColumnMajor, dimensions, indices) == indices[0]
            + indices[1] * dimensions[0],
{
    lemma_product_of_two(dimensions);
    let row_major = LayoutType::RowMajor;
    let column_major = LayoutType::ColumnMajor;
    assert(linear_index_upto(row_major, dimensions, indices, 0) == 0);
    assert(linear_index_upto(row_major, dimensions, indices, 1) == 0 + indices[1 - 1]
        * product_range(dimensions, 1, 2));
    assert(linear_index_upto(row_major, dimensions, indices, 2) == linear_index_upto(
        row_major,
        dimensions,
        indices,
        1,
    ) + indices[2 - 1] * product_range(dimensions, 2, 2));
    assert(linear_index_upto(column_major, dimensions, indices, 0) == 0);
    assert(linear_index_upto(column_major, dimensions, indices, 1) == 0 + indices[1 - 1]
        * product_range(dimensions, 0, 0));
    assert(linear_index_upto(column_major, dimensions, indices, 2) == linear_index_upto(
        column_major,
        dimensions,
        indices,
        1,
    ) + indices[2 - 1] * product_range(dimensions, 0, 1));
}

/// A number below `base` and a multiple of `base` add up in one way only.
proof fn lemma_digits_unique(low: nat, high: nat, other_low: nat, other_high: nat, base: nat)
    requires
        low < base,
        other_low < base,
        low + high * base == other_low + other_high * base,
    ensures
        low == other_low,
        high == other_high,
{
    if high < other_high {
        assert((high + 1) * base <= other_high * base) by (nonlinear_arith)
            requires
                high + 1 <= other_high,
        ;
        assert((high + 1) * base == high * base + base) by (nonlinear_arith);
    }
    if other_high < high {
        assert((other_high + 1) * base <= high * base) by (nonlinear_arith)
            requires
                other_high + 1 <= high,
        ;
        assert((other_high + 1) * base == other_high * base + base) by (nonlinear_arith);
    }
}

/// What the first `n` axes of a valid index add to a column-major buffer
/// slot is less than the product of their extents.
proof fn lemma_column_major_upto_bound(dimensions: Seq<usize>, indices: Seq<usize>, n: int)
    requires
        in_bounds(indices, dimensions),
        0 <= n <= dimensions.len(),
    ensures
        linear_index_upto(LayoutType::ColumnMajor, dimensions, indices, n) < product_range(
            dimensions,
            0,
            n,
        ),
    decreases n,
{
    if n > 0 {
        lemma_column_major_upto_bound(dimensions, indices, n - 1);
        let below = linear_index_upto(LayoutType::ColumnMajor, dimensions, indices, n - 1);
        let step = product_range(dimensions, 0, n - 1);
        let extent = dimensions[n - 1] as nat;
        let index = indices[n - 1] as nat;
        assert(index < extent);
        assert(stride(LayoutType::ColumnMajor, dimensions, n - 1) == step);
        assert(below + index * step < step * extent) by (nonlinear_arith)
            requires
                below < step,
                index < extent,
        ;
    }
}

/// Two valid indices that add the same to a column-major buffer slot over
/// the first `n` axes agree on those axes.
proof fn lemma_column_major_injective(
    dimensions: Seq<usize>,
    first: Seq<usize>,
    second: Seq<usize>,
    n: int,
)
    requires
        in_bounds(first, dimensions),
        in_bounds(second, dimensions),
        0 <= n <= dimensions.len(),
        linear_index_upto(LayoutType::ColumnMajor, dimensions, first, n) == linear_index_upto(
            LayoutType::ColumnMajor,
            dimensions,
            second,
            n,
        ),
    ensures
        forall|i: int| 0 <= i < n ==> first[i] == second[i],
    decreases n,
{
    if n > 0 {
        lemma_column_major_upto_bound(dimensions, first, n - 1);
        lemma_column_major_upto_bound(dimensions, second, n - 1);
        let step = product_range(dimensions, 0, n - 1);
        assert(stride(LayoutType::ColumnMajor, dimensions, n - 1) == step);
        lemma_digits_unique(
            linear_index_upto(LayoutType::ColumnMajor, dimensions, first, n - 1),
            first[n - 1] as nat,
            linear_index_upto(LayoutType::ColumnMajor, dimensions, second, n - 1),
            second[n - 1] as nat,
            step,
        );
        lemma_column_major_injective(dimensions, first, second, n - 1);
    }
}

/// The place of an index among the indices of the first `n` axes, counted
/// with the last of those axes varying fastest.
spec fn place_upto(dimensions: Seq<usize>, indices: Seq<usize>, n: int) -> nat
    decreases n,
{
    if n <= 0 {
        0
    } else {
        place_upto(dimensions, indices, n - 1) * (dimensions[n - 1] as nat) + (indices[n - 1] as nat)
    }
}

/// What the first `n` axes add to a row-major buffer slot is the place of
/// the index among those axes, times the product of the other extents.
proof fn lemma_row_major_upto(dimensions: Seq<usize>, indices: Seq<usize>, n: int)
    requires
        0 <= n <= dimensions.len(),
    ensures
        linear_index_upto(LayoutType::RowMajor, dimensions, indices, n) == place_upto(
            dimensions,
            indices,
            n,
        ) * product_range(dimensions, n, dimensions.len() as int),
    decreases n,
{
    let len = dimensions.len() as int;
    if n > 0 {
        lemma_row_major_upto(dimensions, indices, n - 1);
        lemma_product_split(dimensions, n - 1, n, len);
        let rest = product_range(dimensions, n, len);
        let extent = dimensions[n - 1] as nat;
        let index = indices[n - 1] as nat;
        let before = place_upto(dimensions, indices, n - 1);
        assert(product_range(dimensions, n - 1, n) == extent) by {
            assert(product_range(dimensions, n - 1, n - 1) == 1);
            assert(product_range(dimensions, n - 1, n) == 1 * dimensions[n - 1] as nat);
        }
        assert(stride(LayoutType::RowMajor, dimensions, n - 1) == rest);
        assert(before * (extent * rest) + index * rest == (before * extent + index) * rest)
            by (nonlinear_arith);
    } else {
        assert(0 * product_range(dimensions, n, len) == 0) by (nonlinear_arith);
    }
}

/// Two valid indices with the same place among the first `n` axes agree on
/// those axes.
proof fn lemma_place_injective(dimensions: Seq<usize>, first: Seq<usize>, second: Seq<usize>, n: int)
    requires
        in_bounds(first, dimensions),
        in_bounds(second, dimensions),
        0 <= n <= dimensions.len(),
        place_upto(dimensions, first, n) == place_upto(dimensions, second, n),
    ensures
        forall|i: int| 0 <= i < n ==> first[i] == second[i],
    decreases n,
{
    if n > 0 {
        assert(first[n - 1] < dimensions[n - 1]);
        assert(second[n - 1] < dimensions[n - 1]);
        lemma_digits_unique(
            first[n - 1] as nat,
            place_upto(dimensions, first, n - 1),
            second[n - 1] as nat,
            place_upto(dimensions, second, n - 1),
            dimensions[n - 1] as nat,
        );
        lemma_place_injective(dimensions, first, second, n - 1);
    }
}

/// Two different elements lie in different buffer slots, under either
/// layout and for every number of axes: valid indices that map to the same
/// slot are the same index.
pub proof fn lemma_linear_index_injective(
    layout: LayoutType,
    dimensions: Seq<usize>,
    first: Seq<usize>,
    second: Seq<usize>,
)
    requires
        in_bounds(first, dimensions),
        in_bounds(second, dimensions),
        linear_index(layout, dimensions, first) == linear_index(layout, dimensions, second),
    ensures
        first == second,
{
    let len = dimensions.len() as int;
    match layout {
        LayoutType::ColumnMajor => {
            lemma_column_major_injective(dimensions, first, second, len);
        },
        LayoutType::RowMajor => {
            lemma_row_major_upto(dimensions, first, len);
            lemma_row_major_upto(dimensions, second, len);
            assert(product_range(dimensions, len, len) == 1);
            assert(place_upto(dimensions, first, len) * 1 == place_upto(dimensions, first, len));
            assert(place_upto(dimensions, second, len) * 1 == place_upto(dimensions, second, len));
            lemma_place_injective(dimensions, first, second, len);
        },
    }
    assert(first =~= second);
}

/// Computes the strides of an array with the given extents.
///
/// Each stride is the product of the extents of the axes that vary faster,
/// reduced to a machine word. No reduction takes place for an array that has
/// elements whose number fits a word (`lemma_strides_exact`).
pub fn calculate_strides<const N: usize>(layout: LayoutType, dimensions: &[usize; N]) -> (strides:
    [usize; N])
    ensures
        is_strides_of(layout, dimensions@, strides@),
{
    let mut stride: usize = 1;
    let mut strides = [0usize; N];
    proof {
        lemma_small_mod(1, word());
    }
    match layout {
        LayoutType::RowMajor => {
            let mut i: usize = N;
            while i > 0
                invariant
                    i <= N,
                    stride as nat == product_range(dimensions@, i as int, N as int) % word(),
                    forall|k: int|
                        i <= k < N ==> #[trigger] strides@[k] as nat == product_range(
                            dimensions@,
                            k + 1,
                            N as int,
                        ) % word(),
                decreases i,
            {
                i -= 1;
                strides[i] = stride;
                proof {
                    let rest: int = product_range(dimensions@, i + 1, N as int) as int;
                    let extent: int = dimensions@[i as int] as int;
                    let w: int = word() as int;
                    lemma_product_split(dimensions@, i as int, i + 1, N as int);
                    assert(product_range(dimensions@, i as int, i + 1) == extent) by {
                        assert(product_range(dimensions@, i as int, i as int) == 1);
                        assert(product_range(dimensions@, i as int, i + 1) == 1 * dimensions@[i
                            + 1 - 1] as nat);
                    }
                    lemma_mul_mod_noop_left(rest, extent, w);
                    assert(((rest % w) * extent) % w == (rest * extent) % w);
                    assert(rest * extent == extent * rest) by (nonlinear_arith);
                }
                stride = stride.wrapping_mul(dimensions[i]);
            }
        },
        LayoutType::ColumnMajor => {
            let mut i: usize = 0;
            while i < N
                invariant
                    i <= N,
                    stride as nat == product_range(dimensions@, 0, i as int) % word(),
                    forall|k: int|
                        0 <= k < i ==> #[trigger] strides@[k] as nat == product_range(
                            dimensions@,
                            0,
                            k,
                        ) % word(),
                decreases N - i,
            {
                strides[i] = stride;
                proof {
                    let rest: int = product_range(dimensions@, 0, i as int) as int;
                    let extent: int = dimensions@[i as int] as int;
                    let w: int = word() as int;
                    lemma_mul_mod_noop_left(rest, extent, w);
                    assert(((rest % w) * extent) % w == (rest * extent) % w);
                }
                stride = stride.wrapping_mul(dimensions[i]);
                i += 1;
            }
        },
    }
    strides
}

/// A layout strategy: a tag type that stands for one `LayoutType`.
pub trait MemoryLayout {
    /// The convention that the tag stands for.
    spec fn layout_type() -> LayoutType;

    /// Computes the strides of an array with the given extents under this layout.
    fn calculate_strides<const N: usize>(dimensions: [usize; N]) -> (strides: [usize; N])
        ensures
            is_strides_of(Self::layout_type(), dimensions@, strides@),
    ;
}

/// The last axis varies fastest.
pub struct RowMajor;

/// The first axis varies fastest.
pub struct ColumnMajor;

impl MemoryLayout for RowMajor {
    open spec fn layout_type() -> LayoutType {
        LayoutType::RowMajor
    }

    fn calculate_strides<const N: usize>(dimensions: [usize; N]) -> (strides: [usize; N]) {
        self::calculate_strides(LayoutType::RowMajor, &dimensions)
    }
}

impl MemoryLayout for ColumnMajor {
    open spec fn layout_type() -> LayoutType {
        LayoutType::ColumnMajor
    }

    fn calculate_strides<const N: usize>(dimensions: [usize; N]) -> (strides: [usize; N]) {
        self::calculate_strides(LayoutType::ColumnMajor, &dimensions)
    }
}

/// The shape of an array: its layout, the extents of its axes, and the
/// strides that follow from the two.
pub struct NDArrayStorage<const N: usize> {
    layout: LayoutType,
    dimensions: [usize; N],
    strides: [usize; N],
}

impl<const N: usize> NDArrayStorage<N> {
    /// The layout.
    pub closed spec fn layout(&self) -> LayoutType {
        self.layout
    }

    /// The extent of each axis.
    pub closed spec fn dims(&self) -> Seq<usize> {
        self.dimensions@
    }

    /// The stride of each axis, as stored.
    pub closed spec fn steps(&self) -> Seq<usize> {
        self.strides@
    }

    /// The strides are those of the layout for the extents.
    pub open spec fn wf(&self) -> bool {
        is_strides_of(self.layout(), self.dims(), self.steps())
    }

    /// The shape of an array with the given layout and extents.
    pub fn new(layout: LayoutType, dimensions: &[usize; N]) -> (shape: Self)
        ensures
            shape.wf(),
            shape.layout() == layout,
            shape.dims() == dimensions@,
    {
        NDArrayStorage {
            layout,
            dimensions: *dimensions,
            strides: calculate_strides(layout, dimensions),
        }
    }

    /// Gives the shape new extents, and the strides that go with them.
    pub fn update_dimensions(&mut self, dimensions: &[usize; N])
        ensures
            final(self).wf(),
            final(self).layout() == old(self).layout(),
            final(self).dims() == dimensions@,
    {
        self.dimensions = *dimensions;
        self.strides = calculate_strides(self.layout, dimensions);
    }

    /// The stride of each axis.
    pub fn strides(&self) -> (strides: &[usize; N])
        ensures
            strides@ == self.steps(),
    {
        &self.strides
    }

    /// The extent of each axis.
    pub fn dimensions(&self) -> (dimensions: &[usize; N])
        ensures
            dimensions@ == self.dims(),
    {
        &self.dimensions
    }
}

} // verus!
